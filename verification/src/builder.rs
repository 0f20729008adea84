//! The graph builder: a single linear scan over depth-tagged decoded section
//! records that maintains the instance-index counter, the alias map and the
//! names table, followed by a materialization pass that creates the nodes and
//! export mappings and classifies host imports.

use std::collections::HashMap;
use vstd::prelude::*;

use crate::alias::{resolve_alias, resolve_alias_traced, spec_resolve, spec_resolve_truncated};
use crate::model::{
    classify_imports, has_index, lemma_node_insert_keys, spec_classify, spec_classify_conn,
    spec_export_upsert, spec_node_insert, ComponentNode, CompositionGraph, ConnView, GraphView,
    InterfaceConnection, NodeView,
};
use crate::text::{spec_dec, u32_dec_string};

verus! {

broadcast use vstd::std_specs::hash::group_hash_axioms;

/// A human-readable name bound to an instance index by a names section.
pub struct NameBinding {
    pub index: u32,
    pub name: String,
}

impl View for NameBinding {
    type V = (u32, Seq<char>);

    open spec fn view(&self) -> (u32, Seq<char>) {
        (self.index, self.name@)
    }
}

/// One "with"-style wiring argument of an instantiation: the interface name
/// and the (possibly aliased) index of the instance supplying it.
pub struct ImportArg {
    pub name: String,
    pub index: u32,
}

impl View for ImportArg {
    type V = (Seq<char>, u32);

    open spec fn view(&self) -> (Seq<char>, u32) {
        (self.name@, self.index)
    }
}

/// Abstract value of an `InstanceDecl`.
pub ghost enum InstanceDeclView {
    Instantiate { component_index: u32, args: Seq<(Seq<char>, u32)> },
    FromExports,
}

/// One entry of an instance section: a real instantiation with its wiring
/// arguments, or a synthetic bundle built purely from exports.
pub enum InstanceDecl {
    Instantiate { component_index: u32, args: Vec<ImportArg> },
    FromExports,
}

/// The views of a list of wiring arguments.
pub open spec fn args_view(s: Seq<ImportArg>) -> Seq<(Seq<char>, u32)> {
    s.map_values(|a: ImportArg| a@)
}

impl View for InstanceDecl {
    type V = InstanceDeclView;

    open spec fn view(&self) -> InstanceDeclView {
        match self {
            InstanceDecl::Instantiate { component_index, args } => InstanceDeclView::Instantiate {
                component_index: *component_index,
                args: args_view(args@),
            },
            InstanceDecl::FromExports => InstanceDeclView::FromExports,
        }
    }
}

/// Abstract value of an `ExportDecl`.
pub ghost struct ExportDeclView {
    pub name: Seq<char>,
    pub is_instance: bool,
    pub index: u32,
}

/// One entry of an export section: the export name, whether the exported
/// item is an instance, and the index of the exported item.
pub struct ExportDecl {
    pub name: String,
    pub is_instance: bool,
    pub index: u32,
}

impl View for ExportDecl {
    type V = ExportDeclView;

    open spec fn view(&self) -> ExportDeclView {
        ExportDeclView { name: self.name@, is_instance: self.is_instance, index: self.index }
    }
}

/// Abstract value of a `SectionRecord`.
pub ghost enum SectionRecordView {
    EnterNested,
    ExitNested,
    Names(Seq<(u32, Seq<char>)>),
    Imports(Seq<bool>),
    Instances(Seq<InstanceDeclView>),
    Aliases(Seq<Option<u32>>),
    Exports(Seq<ExportDeclView>),
}

/// One decoded, depth-tagged section record. `EnterNested` and `ExitNested`
/// bracket nested definitions, whose records the builder skips; the others
/// carry the declarations the builder consumes. An `Imports` entry is `true`
/// for each import of instance type; an `Aliases` entry is `Some(source)`
/// for each alias that creates a new instance-shaped binding from `source`.
pub enum SectionRecord {
    EnterNested,
    ExitNested,
    Names(Vec<NameBinding>),
    Imports(Vec<bool>),
    Instances(Vec<InstanceDecl>),
    Aliases(Vec<Option<u32>>),
    Exports(Vec<ExportDecl>),
}

/// The views of a list of name bindings.
pub open spec fn names_view(s: Seq<NameBinding>) -> Seq<(u32, Seq<char>)> {
    s.map_values(|b: NameBinding| b@)
}

/// The views of a list of instance declarations.
pub open spec fn decls_view(s: Seq<InstanceDecl>) -> Seq<InstanceDeclView> {
    s.map_values(|d: InstanceDecl| d@)
}

/// The views of a list of export declarations.
pub open spec fn export_decls_view(s: Seq<ExportDecl>) -> Seq<ExportDeclView> {
    s.map_values(|e: ExportDecl| e@)
}

impl View for SectionRecord {
    type V = SectionRecordView;

    open spec fn view(&self) -> SectionRecordView {
        match self {
            SectionRecord::EnterNested => SectionRecordView::EnterNested,
            SectionRecord::ExitNested => SectionRecordView::ExitNested,
            SectionRecord::Names(v) => SectionRecordView::Names(names_view(v@)),
            SectionRecord::Imports(v) => SectionRecordView::Imports(v@),
            SectionRecord::Instances(v) => SectionRecordView::Instances(decls_view(v@)),
            SectionRecord::Aliases(v) => SectionRecordView::Aliases(v@),
            SectionRecord::Exports(v) => SectionRecordView::Exports(export_decls_view(v@)),
        }
    }
}

/// The views of a list of section records.
pub open spec fn records_view(s: Seq<SectionRecord>) -> Seq<SectionRecordView> {
    s.map_values(|r: SectionRecord| r@)
}

/// The state of the scan: the nesting depth, the next free instance index,
/// the alias map, the names table, the instance declarations with their
/// assigned indices, and the collected export declarations.
pub ghost struct ScanView {
    pub depth: int,
    pub next_index: u32,
    pub aliases: Map<u32, u32>,
    pub names: Map<u32, Seq<char>>,
    pub instances: Seq<(u32, InstanceDeclView)>,
    pub exports: Seq<ExportDeclView>,
}

impl ScanView {
    /// The scan's initial state.
    pub open spec fn init() -> ScanView {
        ScanView {
            depth: 0,
            next_index: 0,
            aliases: Map::empty(),
            names: Map::empty(),
            instances: Seq::empty(),
            exports: Seq::empty(),
        }
    }
}

/// The incremented instance-index counter; it saturates at the largest
/// representable index rather than wrapping.
pub open spec fn spec_inc(n: u32) -> u32 {
    if n < u32::MAX {
        (n + 1) as u32
    } else {
        n
    }
}

/// Name bindings applied in order; a later binding for an index wins.
pub open spec fn spec_names_fold(m: Map<u32, Seq<char>>, bs: Seq<(u32, Seq<char>)>) -> Map<
    u32,
    Seq<char>,
>
    decreases bs.len(),
{
    if bs.len() == 0 {
        m
    } else {
        spec_names_fold(m, bs.drop_last()).insert(bs.last().0, bs.last().1)
    }
}

/// The index counter after a run of import declarations: each instance-typed
/// import consumes one index.
pub open spec fn spec_imports_next(next: u32, flags: Seq<bool>) -> u32
    decreases flags.len(),
{
    if flags.len() == 0 {
        next
    } else {
        let p = spec_imports_next(next, flags.drop_last());
        if flags.last() {
            spec_inc(p)
        } else {
            p
        }
    }
}

/// The counter and instance list after a run of instance declarations: each
/// declaration, of either kind, takes the next index.
pub open spec fn spec_instances_fold(
    next: u32,
    insts: Seq<(u32, InstanceDeclView)>,
    ds: Seq<InstanceDeclView>,
) -> (u32, Seq<(u32, InstanceDeclView)>)
    decreases ds.len(),
{
    if ds.len() == 0 {
        (next, insts)
    } else {
        let p = spec_instances_fold(next, insts, ds.drop_last());
        (spec_inc(p.0), p.1.push((p.0, ds.last())))
    }
}

/// The counter and alias map after a run of alias declarations: an alias
/// that re-exports an instance takes the next index and records its source;
/// other aliases change nothing.
pub open spec fn spec_aliases_fold(next: u32, m: Map<u32, u32>, als: Seq<Option<u32>>) -> (
    u32,
    Map<u32, u32>,
)
    decreases als.len(),
{
    if als.len() == 0 {
        (next, m)
    } else {
        let p = spec_aliases_fold(next, m, als.drop_last());
        match als.last() {
            Some(src) => (spec_inc(p.0), p.1.insert(p.0, src)),
            None => p,
        }
    }
}

/// The effect of one section record on the scan state. Depth bookkeeping
/// happens for every record; declarations count only at the top level.
pub open spec fn spec_apply_record(st: ScanView, r: SectionRecordView) -> ScanView {
    match r {
        SectionRecordView::EnterNested => ScanView { depth: st.depth + 1, ..st },
        SectionRecordView::ExitNested => ScanView {
            depth: if st.depth > 0 {
                st.depth - 1
            } else {
                0
            },
            ..st
        },
        SectionRecordView::Names(bs) => if st.depth > 0 {
            st
        } else {
            ScanView { names: spec_names_fold(st.names, bs), ..st }
        },
        SectionRecordView::Imports(fs) => if st.depth > 0 {
            st
        } else {
            ScanView { next_index: spec_imports_next(st.next_index, fs), ..st }
        },
        SectionRecordView::Instances(ds) => if st.depth > 0 {
            st
        } else {
            ScanView {
                next_index: spec_instances_fold(st.next_index, st.instances, ds).0,
                instances: spec_instances_fold(st.next_index, st.instances, ds).1,
                ..st
            }
        },
        SectionRecordView::Aliases(als) => if st.depth > 0 {
            st
        } else {
            ScanView {
                next_index: spec_aliases_fold(st.next_index, st.aliases, als).0,
                aliases: spec_aliases_fold(st.next_index, st.aliases, als).1,
                ..st
            }
        },
        SectionRecordView::Exports(es) => if st.depth > 0 {
            st
        } else {
            ScanView { exports: st.exports + es, ..st }
        },
    }
}

/// The scan of a whole record sequence, in order.
pub open spec fn spec_scan(rs: Seq<SectionRecordView>) -> ScanView
    decreases rs.len(),
{
    if rs.len() == 0 {
        ScanView::init()
    } else {
        spec_apply_record(spec_scan(rs.drop_last()), rs.last())
    }
}

/// A node's display name: the names-table binding when there is one, else
/// the deterministic fallback `instance_<index>`.
pub open spec fn spec_node_name(names: Map<u32, Seq<char>>, idx: u32) -> Seq<char> {
    if names.contains_key(idx) {
        names[idx]
    } else {
        "instance_"@ + spec_dec(idx as int)
    }
}

/// The connection recorded for one wiring argument: the argument's index is
/// resolved through the alias map; host classification comes later.
pub open spec fn spec_conn_of_arg(aliases: Map<u32, u32>, a: (Seq<char>, u32)) -> ConnView {
    ConnView { interface: a.0, source: Some(spec_resolve(aliases, a.1)), is_host: false }
}

/// The connections of all wiring arguments, in order.
pub open spec fn spec_conns_of_args(aliases: Map<u32, u32>, args: Seq<(Seq<char>, u32)>) -> Seq<
    ConnView,
> {
    args.map_values(|a: (Seq<char>, u32)| spec_conn_of_arg(aliases, a))
}

/// The node map after materializing the first `k` instance declarations:
/// each real instantiation becomes a node under its assigned index; a
/// from-exports bundle is not added.
pub open spec fn spec_nodes_built(st: ScanView, k: int) -> Seq<(u32, NodeView)>
    decreases k,
{
    if k <= 0 {
        Seq::empty()
    } else {
        let prev = spec_nodes_built(st, k - 1);
        match st.instances[k - 1].1 {
            InstanceDeclView::Instantiate { component_index, args } => spec_node_insert(
                prev,
                st.instances[k - 1].0,
                NodeView {
                    name: spec_node_name(st.names, st.instances[k - 1].0),
                    component_index,
                    imports: spec_conns_of_args(st.aliases, args),
                },
            ),
            InstanceDeclView::FromExports => prev,
        }
    }
}

/// The export map after the first `k` export declarations: only exports of
/// instances are registered, under their alias-resolved target.
pub open spec fn spec_exports_built(st: ScanView, k: int) -> Seq<(Seq<char>, u32)>
    decreases k,
{
    if k <= 0 {
        Seq::empty()
    } else {
        let prev = spec_exports_built(st, k - 1);
        let e = st.exports[k - 1];
        if e.is_instance {
            spec_export_upsert(prev, e.name, spec_resolve(st.aliases, e.index))
        } else {
            prev
        }
    }
}

/// The graph built from a record sequence: scan, materialize, classify.
pub open spec fn spec_build(rs: Seq<SectionRecordView>) -> GraphView {
    let st = spec_scan(rs);
    spec_classify(
        GraphView {
            nodes: spec_nodes_built(st, st.instances.len() as int),
            exports: spec_exports_built(st, st.exports.len() as int),
        },
    )
}

/// The wiring argument at position `(t, a)` of the scan's instance list has
/// a truncated alias resolution: the resolver's hop ceiling cut the walk
/// short, so the recorded source is not guaranteed canonical.
pub open spec fn spec_truncated_arg(st: ScanView, t: int, a: int) -> bool {
    0 <= t < st.instances.len() && match st.instances[t].1 {
        InstanceDeclView::Instantiate { component_index, args } => 0 <= a < args.len()
            && spec_resolve_truncated(st.aliases, args[a].1),
        InstanceDeclView::FromExports => false,
    }
}

/// The export declaration at position `k` of the scan targets an instance
/// and has a truncated alias resolution.
pub open spec fn spec_truncated_export(st: ScanView, k: int) -> bool {
    0 <= k < st.exports.len() && st.exports[k].is_instance && spec_resolve_truncated(
        st.aliases,
        st.exports[k].index,
    )
}

/// The non-fatal diagnostic condition of the build: some alias-resolved
/// reference (a wiring argument or an instance export) hit the resolver's
/// hop ceiling, so the built graph's resolution of it is not guaranteed
/// canonical.
pub open spec fn spec_scan_truncated(st: ScanView) -> bool {
    (exists|t: int, a: int| spec_truncated_arg(st, t, a)) || (exists|k: int|
        spec_truncated_export(st, k))
}

/// The bounded form of the argument half: only arguments strictly before
/// position `(i, j)` in the materialization order are considered.
pub open spec fn truncated_arg_upto(st: ScanView, i: int, j: int) -> bool {
    exists|t: int, a: int| (t < i || (t == i && a < j)) && spec_truncated_arg(st, t, a)
}

/// The bounded form of the export half.
pub open spec fn truncated_export_upto(st: ScanView, k: int) -> bool {
    exists|x: int| x < k && spec_truncated_export(st, x)
}

/// The exec names table matches the ghost one: same indices, same names.
pub open spec fn names_match(m: Map<u32, String>, s: Map<u32, Seq<char>>) -> bool {
    m.dom() == s.dom() && forall|k: u32| m.contains_key(k) ==> s[k] == #[trigger] m[k]@
}

/// The views of collected instance declarations.
pub open spec fn insts_view(s: Seq<(u32, &InstanceDecl)>) -> Seq<(u32, InstanceDeclView)> {
    s.map_values(|p: (u32, &InstanceDecl)| (p.0, p.1@))
}

/// The views of collected export declarations.
pub open spec fn exps_view(s: Seq<&ExportDecl>) -> Seq<ExportDeclView> {
    s.map_values(|e: &ExportDecl| e@)
}

/// Build the composition graph from a decoded, depth-tagged record stream,
/// and report the non-fatal diagnostic: one linear scan maintains the index
/// counter, alias map and names table and collects top-level declarations;
/// the nodes and exports are then materialized with alias-resolved
/// references, and every connection is classified against the complete node
/// map. Building never fails; the flag is true exactly when some alias
/// resolution hit the resolver's hop ceiling, in which case the graph is
/// still returned but its alias resolution is not guaranteed canonical.
pub fn build_graph_traced(records: &Vec<SectionRecord>) -> (r: (CompositionGraph, bool))
    ensures
        r.0.wf(),
        r.0@ == spec_build(records_view(records@)),
        r.1 == spec_scan_truncated(spec_scan(records_view(records@))),
{
    let ghost rs = records_view(records@);
    let n = records.len();
    let mut depth: usize = 0;
    let mut next_index: u32 = 0;
    let mut aliases: HashMap<u32, u32> = HashMap::new();
    let mut names: HashMap<u32, String> = HashMap::new();
    let mut instances: Vec<(u32, &InstanceDecl)> = Vec::new();
    let mut exports: Vec<&ExportDecl> = Vec::new();
    proof {
        assert(rs.take(0) =~= Seq::<SectionRecordView>::empty());
        assert(insts_view(instances@) =~= spec_scan(rs.take(0)).instances);
        assert(exps_view(exports@) =~= spec_scan(rs.take(0)).exports);
        assert(names_match(names@, spec_scan(rs.take(0)).names)) by {
            assert(names@.dom() =~= spec_scan(rs.take(0)).names.dom());
        }
    }
    let mut k: usize = 0;
    while k < n
        invariant
            n == records@.len(),
            rs == records_view(records@),
            rs.len() == n,
            k <= n,
            depth as int == spec_scan(rs.take(k as int)).depth,
            spec_scan(rs.take(k as int)).depth <= k,
            next_index == spec_scan(rs.take(k as int)).next_index,
            aliases@ == spec_scan(rs.take(k as int)).aliases,
            names_match(names@, spec_scan(rs.take(k as int)).names),
            insts_view(instances@) == spec_scan(rs.take(k as int)).instances,
            exps_view(exports@) == spec_scan(rs.take(k as int)).exports,
        decreases n - k,
    {
        let ghost st_pre = spec_scan(rs.take(k as int));
        proof {
            assert(rs.take(k as int + 1).drop_last() =~= rs.take(k as int));
            assert(rs.take(k as int + 1).last() == rs[k as int]);
            assert(rs[k as int] == records@[k as int]@);
        }
        let r = &records[k];
        match r {
            SectionRecord::EnterNested => {
                depth = depth + 1;
            },
            SectionRecord::ExitNested => {
                if depth > 0 {
                    depth = depth - 1;
                }
            },
            SectionRecord::Names(bs) => {
                if depth == 0 {
                    let mb = bs.len();
                    let mut t: usize = 0;
                    while t < mb
                        invariant
                            mb == bs@.len(),
                            t <= mb,
                            depth == 0,
                            names_match(
                                names@,
                                spec_names_fold(st_pre.names, names_view(bs@).take(t as int)),
                            ),
                        decreases mb - t,
                    {
                        let b = &bs[t];
                        names.insert(b.index, b.name.clone());
                        t = t + 1;
                        proof {
                            let bv = names_view(bs@);
                            assert(bv.take(t as int).drop_last() =~= bv.take(t as int - 1));
                            assert(bv.take(t as int).last() == bv[t as int - 1]);
                            assert(bv[t as int - 1] == (b.index, b.name@));
                            let sm = spec_names_fold(st_pre.names, bv.take(t as int));
                            assert(names_match(names@, sm)) by {
                                assert(names@.dom() =~= sm.dom());
                            }
                        }
                    }
                    proof {
                        assert(names_view(bs@).take(mb as int) =~= names_view(bs@));
                    }
                }
            },
            SectionRecord::Imports(fs) => {
                if depth == 0 {
                    let mf = fs.len();
                    let mut t: usize = 0;
                    while t < mf
                        invariant
                            mf == fs@.len(),
                            t <= mf,
                            depth == 0,
                            next_index == spec_imports_next(st_pre.next_index, fs@.take(t as int)),
                        decreases mf - t,
                    {
                        proof {
                            assert(fs@.take(t as int + 1).drop_last() =~= fs@.take(t as int));
                        }
                        if fs[t] {
                            if next_index < u32::MAX {
                                next_index = next_index + 1;
                            }
                        }
                        t = t + 1;
                    }
                    proof {
                        assert(fs@.take(mf as int) =~= fs@);
                    }
                }
            },
            SectionRecord::Instances(ds) => {
                if depth == 0 {
                    let md = ds.len();
                    let mut t: usize = 0;
                    while t < md
                        invariant
                            md == ds@.len(),
                            t <= md,
                            depth == 0,
                            ds@ == records@[k as int]->Instances_0@,
                            (next_index, insts_view(instances@)) == spec_instances_fold(
                                st_pre.next_index,
                                st_pre.instances,
                                decls_view(ds@).take(t as int),
                            ),
                        decreases md - t,
                    {
                        proof {
                            let dv = decls_view(ds@);
                            assert(dv.take(t as int + 1).drop_last() =~= dv.take(t as int));
                            assert(dv.take(t as int + 1).last() == dv[t as int]);
                            assert(dv[t as int] == ds@[t as int]@);
                        }
                        let ghost pre_insts = insts_view(instances@);
                        instances.push((next_index, &ds[t]));
                        if next_index < u32::MAX {
                            next_index = next_index + 1;
                        }
                        t = t + 1;
                        proof {
                            assert(insts_view(instances@) =~= pre_insts.push(
                                (instances@.last().0, instances@.last().1@),
                            ));
                        }
                    }
                    proof {
                        assert(decls_view(ds@).take(md as int) =~= decls_view(ds@));
                    }
                }
            },
            SectionRecord::Aliases(als) => {
                if depth == 0 {
                    let ma = als.len();
                    let mut t: usize = 0;
                    while t < ma
                        invariant
                            ma == als@.len(),
                            t <= ma,
                            depth == 0,
                            (next_index, aliases@) == spec_aliases_fold(
                                st_pre.next_index,
                                st_pre.aliases,
                                als@.take(t as int),
                            ),
                        decreases ma - t,
                    {
                        proof {
                            assert(als@.take(t as int + 1).drop_last() =~= als@.take(t as int));
                        }
                        match als[t] {
                            Some(src) => {
                                aliases.insert(next_index, src);
                                if next_index < u32::MAX {
                                    next_index = next_index + 1;
                                }
                            },
                            None => {},
                        }
                        t = t + 1;
                    }
                    proof {
                        assert(als@.take(ma as int) =~= als@);
                    }
                }
            },
            SectionRecord::Exports(es) => {
                if depth == 0 {
                    let me = es.len();
                    let mut t: usize = 0;
                    while t < me
                        invariant
                            me == es@.len(),
                            t <= me,
                            depth == 0,
                            es@ == records@[k as int]->Exports_0@,
                            exps_view(exports@) == st_pre.exports + export_decls_view(es@).take(
                                t as int,
                            ),
                        decreases me - t,
                    {
                        let ghost pre_exps = exps_view(exports@);
                        exports.push(&es[t]);
                        t = t + 1;
                        proof {
                            assert(exps_view(exports@) =~= pre_exps.push(exports@.last()@));
                            assert(export_decls_view(es@).take(t as int).drop_last()
                                =~= export_decls_view(es@).take(t as int - 1));
                            assert(st_pre.exports + export_decls_view(es@).take(t as int)
                                =~= (st_pre.exports + export_decls_view(es@).take(t as int - 1)).push(
                                export_decls_view(es@)[t as int - 1],
                            ));
                        }
                    }
                    proof {
                        assert(export_decls_view(es@).take(me as int) =~= export_decls_view(es@));
                    }
                }
            },
        }
        k = k + 1;
    }
    proof {
        assert(rs.take(n as int) =~= rs);
    }
    let ghost stf = spec_scan(rs);
    let mut graph = CompositionGraph::new();
    let mut diag = false;
    let ni = instances.len();
    proof {
        assert(stf.instances.len() == ni);
    }
    let mut t: usize = 0;
    while t < ni
        invariant
            graph.wf(),
            ni == instances@.len(),
            stf.instances.len() == ni,
            t <= ni,
            insts_view(instances@) == stf.instances,
            aliases@ == stf.aliases,
            names_match(names@, stf.names),
            graph@.nodes == spec_nodes_built(stf, t as int),
            graph@.exports == Seq::<(Seq<char>, u32)>::empty(),
            diag == truncated_arg_upto(stf, t as int, 0),
        decreases ni - t,
    {
        let idx = instances[t].0;
        let decl = instances[t].1;
        proof {
            assert(stf.instances[t as int] == (idx, decl@));
        }
        match decl {
            InstanceDecl::Instantiate { component_index, args } => {
                let name: String = match names.get(&idx) {
                    Some(s) => s.clone(),
                    None => {
                        let mut f = String::new();
                        f.append("instance_");
                        let d = u32_dec_string(idx);
                        f.append(d.as_str());
                        f
                    },
                };
                proof {
                    assert(name@ == spec_node_name(stf.names, idx));
                    assert(stf.instances[t as int].1 == (InstanceDeclView::Instantiate {
                        component_index: *component_index,
                        args: args_view(args@),
                    }));
                }
                let mut node = ComponentNode::new(name, *component_index);
                let na = args.len();
                let mut a: usize = 0;
                while a < na
                    invariant
                        na == args@.len(),
                        aliases@ == stf.aliases,
                        stf.instances.len() == ni,
                        t < ni,
                        stf.instances[t as int].1 == (InstanceDeclView::Instantiate {
                            component_index: *component_index,
                            args: args_view(args@),
                        }),
                        a <= na,
                        node@.imports == spec_conns_of_args(
                            stf.aliases,
                            args_view(args@).take(a as int),
                        ),
                        node@.name == spec_node_name(stf.names, idx),
                        node@.component_index == *component_index,
                        diag == truncated_arg_upto(stf, t as int, a as int),
                    decreases na - a,
                {
                    let arg = &args[a];
                    let resolved = resolve_alias_traced(arg.index, &aliases);
                    let src = resolved.0;
                    proof {
                        assert(args_view(args@)[a as int] == (arg.name@, arg.index));
                        assert(spec_truncated_arg(stf, t as int, a as int) == resolved.1);
                    }
                    let ghost diag0 = diag;
                    if resolved.1 {
                        diag = true;
                    }
                    proof {
                        assert(diag == truncated_arg_upto(stf, t as int, a as int + 1)) by {
                            if truncated_arg_upto(stf, t as int, a as int + 1) {
                                let (t2, a2) = choose|t2: int, a2: int|
                                    (t2 < t as int || (t2 == t as int && a2 < a as int + 1))
                                        && spec_truncated_arg(stf, t2, a2);
                                if !(t2 == t as int && a2 == a as int) {
                                    assert(truncated_arg_upto(stf, t as int, a as int));
                                }
                            }
                            if diag0 {
                                let (t2, a2) = choose|t2: int, a2: int|
                                    (t2 < t as int || (t2 == t as int && a2 < a as int))
                                        && spec_truncated_arg(stf, t2, a2);
                                assert(truncated_arg_upto(stf, t as int, a as int + 1));
                            }
                            if resolved.1 {
                                assert(spec_truncated_arg(stf, t as int, a as int));
                                assert(truncated_arg_upto(stf, t as int, a as int + 1));
                            }
                        };
                    }
                    let mut iname = arg.name.clone();
                    let conn = InterfaceConnection::from_instance(iname, src);
                    node.add_import(conn);
                    a = a + 1;
                    proof {
                        let av = args_view(args@);
                        assert(av[a as int - 1] == (arg.name@, arg.index));
                        assert(spec_conns_of_args(stf.aliases, av.take(a as int)).len()
                            == a as int);
                        assert(node@.imports.len() == a as int);
                        assert forall|x: int| 0 <= x < a implies node@.imports[x]
                            == spec_conns_of_args(stf.aliases, av.take(a as int))[x] by {
                            assert(spec_conns_of_args(stf.aliases, av.take(a as int))[x]
                                == spec_conn_of_arg(stf.aliases, av.take(a as int)[x]));
                            if x < a - 1 {
                                assert(node@.imports[x] == spec_conns_of_args(
                                    stf.aliases,
                                    av.take(a as int - 1),
                                )[x]);
                                assert(spec_conns_of_args(stf.aliases, av.take(a as int - 1))[x]
                                    == spec_conn_of_arg(stf.aliases, av.take(a as int - 1)[x]));
                            }
                        }
                        assert(node@.imports =~= spec_conns_of_args(
                            stf.aliases,
                            av.take(a as int),
                        ));
                    }
                }
                proof {
                    assert(args_view(args@).take(na as int) =~= args_view(args@));
                    assert(decl@ == (InstanceDeclView::Instantiate {
                        component_index: *component_index,
                        args: args_view(args@),
                    }));
                }
                graph.add_node(idx, node);
                proof {
                    assert(graph@.nodes =~= spec_nodes_built(stf, t as int + 1));
                    assert(diag == truncated_arg_upto(stf, t as int + 1, 0)) by {
                        if truncated_arg_upto(stf, t as int + 1, 0) {
                            let (t2, a2) = choose|t2: int, a2: int|
                                (t2 < t as int + 1 || (t2 == t as int + 1 && a2 < 0))
                                    && spec_truncated_arg(stf, t2, a2);
                            assert(t2 < t as int || (t2 == t as int && a2 < na as int));
                            assert(truncated_arg_upto(stf, t as int, na as int));
                        }
                        if truncated_arg_upto(stf, t as int, na as int) {
                            let (t2, a2) = choose|t2: int, a2: int|
                                (t2 < t as int || (t2 == t as int && a2 < na as int))
                                    && spec_truncated_arg(stf, t2, a2);
                            assert(truncated_arg_upto(stf, t as int + 1, 0));
                        }
                    };
                }
            },
            InstanceDecl::FromExports => {
                proof {
                    assert(graph@.nodes =~= spec_nodes_built(stf, t as int + 1));
                    assert(diag == truncated_arg_upto(stf, t as int + 1, 0)) by {
                        if truncated_arg_upto(stf, t as int + 1, 0) {
                            let (t2, a2) = choose|t2: int, a2: int|
                                (t2 < t as int + 1 || (t2 == t as int + 1 && a2 < 0))
                                    && spec_truncated_arg(stf, t2, a2);
                            if t2 == t as int {
                                assert(stf.instances[t2].1 is FromExports);
                            }
                            assert(truncated_arg_upto(stf, t as int, 0));
                        }
                        if truncated_arg_upto(stf, t as int, 0) {
                            let (t2, a2) = choose|t2: int, a2: int|
                                (t2 < t as int || (t2 == t as int && a2 < 0))
                                    && spec_truncated_arg(stf, t2, a2);
                            assert(truncated_arg_upto(stf, t as int + 1, 0));
                        }
                    };
                }
            },
        }
        t = t + 1;
    }
    let ghost adiag = diag;
    proof {
        assert(stf.instances.len() == ni);
        assert(graph@.nodes == spec_nodes_built(stf, stf.instances.len() as int));
        assert(adiag == (exists|t2: int, a2: int| spec_truncated_arg(stf, t2, a2))) by {
            if adiag {
                let (t2, a2) = choose|t2: int, a2: int|
                    (t2 < ni as int || (t2 == ni as int && a2 < 0)) && spec_truncated_arg(
                        stf,
                        t2,
                        a2,
                    );
                assert(spec_truncated_arg(stf, t2, a2));
            }
            if exists|t2: int, a2: int| spec_truncated_arg(stf, t2, a2) {
                let (t2, a2) = choose|t2: int, a2: int| spec_truncated_arg(stf, t2, a2);
                assert(t2 < ni as int);
                assert(truncated_arg_upto(stf, ni as int, 0));
            }
        };
    }
    let ne = exports.len();
    proof {
        assert(stf.exports.len() == ne);
    }
    let mut t2: usize = 0;
    while t2 < ne
        invariant
            graph.wf(),
            ne == exports@.len(),
            stf.exports.len() == ne,
            t2 <= ne,
            exps_view(exports@) == stf.exports,
            aliases@ == stf.aliases,
            adiag == (exists|x: int, y: int| spec_truncated_arg(stf, x, y)),
            graph@.nodes == spec_nodes_built(stf, stf.instances.len() as int),
            graph@.exports == spec_exports_built(stf, t2 as int),
            diag == (adiag || truncated_export_upto(stf, t2 as int)),
        decreases ne - t2,
    {
        let e = exports[t2];
        proof {
            assert(stf.exports[t2 as int] == e@);
        }
        let ghost diag0 = diag;
        if e.is_instance {
            let resolved = resolve_alias_traced(e.index, &aliases);
            proof {
                assert(spec_truncated_export(stf, t2 as int) == resolved.1);
            }
            if resolved.1 {
                diag = true;
            }
            graph.add_export(e.name.clone(), resolved.0);
        } else {
            proof {
                assert(!spec_truncated_export(stf, t2 as int));
            }
        }
        t2 = t2 + 1;
        proof {
            assert(graph@.exports =~= spec_exports_built(stf, t2 as int));
            assert(diag == (adiag || truncated_export_upto(stf, t2 as int))) by {
                if truncated_export_upto(stf, t2 as int) {
                    let x = choose|x: int| x < t2 as int && spec_truncated_export(stf, x);
                    if x != t2 as int - 1 {
                        assert(truncated_export_upto(stf, t2 as int - 1));
                    }
                }
                if diag0 && !adiag {
                    let x = choose|x: int| x < t2 as int - 1 && spec_truncated_export(stf, x);
                    assert(truncated_export_upto(stf, t2 as int));
                }
                if spec_truncated_export(stf, t2 as int - 1) {
                    assert(truncated_export_upto(stf, t2 as int));
                }
            };
        }
    }
    graph.classify_host_imports();
    proof {
        assert(graph@ =~= spec_build(rs));
        assert(diag == spec_scan_truncated(stf)) by {
            if truncated_export_upto(stf, ne as int) {
                let x = choose|x: int| x < ne as int && spec_truncated_export(stf, x);
                assert(spec_truncated_export(stf, x));
            }
            if exists|x: int| spec_truncated_export(stf, x) {
                let x = choose|x: int| spec_truncated_export(stf, x);
                assert(x < ne as int);
                assert(truncated_export_upto(stf, ne as int));
            }
        };
    }
    (graph, diag)
}

/// Build the composition graph from a decoded, depth-tagged record stream;
/// the traced form above also reports the alias-ceiling diagnostic.
pub fn build_graph(records: &Vec<SectionRecord>) -> (g: CompositionGraph)
    ensures
        g.wf(),
        g@ == spec_build(records_view(records@)),
{
    build_graph_traced(records).0
}

/// Some instance declaration of the scan carries the given index.
pub open spec fn scan_has_instance_index(st: ScanView, x: u32) -> bool {
    exists|t: int| 0 <= t < st.instances.len() && st.instances[t].0 == x
}

proof fn lemma_nodes_built_keys(st: ScanView, k: int)
    requires
        0 <= k <= st.instances.len(),
    ensures
        forall|x: u32| has_index(spec_nodes_built(st, k), x) ==> scan_has_instance_index(st, x),
    decreases k,
{
    if k > 0 {
        lemma_nodes_built_keys(st, k - 1);
        match st.instances[k - 1].1 {
            InstanceDeclView::Instantiate { component_index, args } => {
                lemma_node_insert_keys(
                    spec_nodes_built(st, k - 1),
                    st.instances[k - 1].0,
                    NodeView {
                        name: spec_node_name(st.names, st.instances[k - 1].0),
                        component_index,
                        imports: spec_conns_of_args(st.aliases, args),
                    },
                );
                assert forall|x: u32| has_index(spec_nodes_built(st, k), x) implies
                    scan_has_instance_index(st, x) by {
                    if x == st.instances[k - 1].0 {
                        assert(st.instances[k - 1].0 == x);
                    }
                }
            },
            InstanceDeclView::FromExports => {},
        }
    }
}

/// Index uniqueness: the node indices of a built graph are pairwise
/// distinct, and each of them is one of the instance indices assigned during
/// the scan.
pub proof fn lemma_index_uniqueness(rs: Seq<SectionRecordView>, g: GraphView)
    requires
        g.wf(),
        g == spec_build(rs),
    ensures
        forall|i: int, j: int| 0 <= i < j < g.nodes.len() ==> g.nodes[i].0 != g.nodes[j].0,
        forall|i: int|
            0 <= i < g.nodes.len() ==> scan_has_instance_index(
                spec_scan(rs),
                #[trigger] g.nodes[i].0,
            ),
{
    let st = spec_scan(rs);
    let built = spec_nodes_built(st, st.instances.len() as int);
    lemma_nodes_built_keys(st, st.instances.len() as int);
    assert forall|i: int| 0 <= i < g.nodes.len() implies scan_has_instance_index(
        st,
        #[trigger] g.nodes[i].0,
    ) by {
        assert(g.nodes[i].0 == built[i].0);
        assert(has_index(built, built[i].0));
    }
}

/// Host classification closure: in a built graph, a connection is
/// host-classified exactly when its recorded source instance is absent from
/// the node map (a connection with no recorded source counts as absent) —
/// for all nodes, for all imports.
pub proof fn lemma_host_classification(rs: Seq<SectionRecordView>, g: GraphView)
    requires
        g == spec_build(rs),
    ensures
        forall|i: int, j: int|
            0 <= i < g.nodes.len() && 0 <= j < g.nodes[i].1.imports.len()
                ==> ((#[trigger] g.nodes[i].1.imports[j]).is_host == match g.nodes[i].1.imports[j].source {
                Some(s) => !g.contains_index(s),
                None => true,
            }),
{
    let st = spec_scan(rs);
    let g0 = GraphView {
        nodes: spec_nodes_built(st, st.instances.len() as int),
        exports: spec_exports_built(st, st.exports.len() as int),
    };
    assert(g == spec_classify(g0));
    assert(g.nodes.len() == g0.nodes.len());
    assert forall|x: u32| g.contains_index(x) == g0.contains_index(x) by {
        assert(forall|t: int|
            0 <= t < g.nodes.len() ==> (#[trigger] g.nodes[t]).0 == g0.nodes[t].0);
        if g.contains_index(x) {
            let t = choose|t: int| 0 <= t < g.nodes.len() && g.nodes[t].0 == x;
            assert(g0.nodes[t].0 == x);
        }
        if g0.contains_index(x) {
            let t = choose|t: int| 0 <= t < g0.nodes.len() && g0.nodes[t].0 == x;
            assert(g.nodes[t].0 == x);
        }
    }
    assert forall|i: int, j: int|
        0 <= i < g.nodes.len() && 0 <= j < g.nodes[i].1.imports.len()
            implies ((#[trigger] g.nodes[i].1.imports[j]).is_host == match g.nodes[i].1.imports[j].source {
            Some(s) => !g.contains_index(s),
            None => true,
        }) by {
        assert(g.nodes[i].1.imports == classify_imports(g0, g0.nodes[i].1.imports));
        assert(g.nodes[i].1.imports[j] == spec_classify_conn(g0, g0.nodes[i].1.imports[j]));
    }
}

} // verus!
