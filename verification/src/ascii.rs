//! The textual box-diagram renderer: pure functions from the composition
//! graph to a text document, at three detail levels.

use vstd::prelude::*;

use crate::model::{
    ref_nodes_view, seqs_contain, short_interface_name, spec_is_host_interface, spec_node_at,
    spec_real_nodes, spec_short_name, strings_sorted, views_of, CompositionGraph, GraphView,
    NodeView, SYNTHETIC_COMPONENT,
};
use crate::output::DetailLevel;
use crate::text::{push_char, spec_dec, spec_drop_leading, spec_repeat, u32_dec_string};
use crate::{get_chain_for, spec_chain};

verus! {

/// A node's display label.
pub open spec fn spec_label(n: NodeView) -> Seq<char> {
    spec_drop_leading(n.name, '$')
}

/// Addition capped at the largest `usize`, mirroring the width arithmetic.
pub open spec fn spec_sat_add(a: int, b: int) -> int {
    if a + b > usize::MAX {
        usize::MAX as int
    } else {
        a + b
    }
}

fn sat_add(a: usize, b: usize) -> (r: usize)
    ensures
        r == spec_sat_add(a as int, b as int),
{
    if a > usize::MAX - b {
        usize::MAX
    } else {
        a + b
    }
}

/// The width of the widest line.
pub open spec fn spec_max_len(lines: Seq<Seq<char>>) -> int
    decreases lines.len(),
{
    if lines.len() == 0 {
        0
    } else {
        let rest = spec_max_len(lines.drop_last());
        if lines.last().len() > rest {
            lines.last().len() as int
        } else {
            rest
        }
    }
}

/// The inner width of a box: the title width (plus its padding) or the
/// widest line, whichever is larger, plus the frame padding.
pub open spec fn spec_box_width(title: Seq<char>, lines: Seq<Seq<char>>) -> int {
    let tw = spec_sat_add(title.len() as int, 2);
    let mw = spec_max_len(lines);
    spec_sat_add(if tw > mw {
        tw
    } else {
        mw
    }, 4)
}

/// One content line of a box: the line, padded to the width.
pub open spec fn spec_box_line(width: int, line: Seq<char>) -> Seq<char> {
    let pad = if width >= line.len() {
        width - line.len()
    } else {
        0
    };
    seq!['\u{2502}'] + line + spec_repeat(' ', pad as nat) + seq!['\u{2502}', '\n']
}

/// The content lines of a box, in order.
pub open spec fn spec_box_lines(width: int, lines: Seq<Seq<char>>) -> Seq<char>
    decreases lines.len(),
{
    if lines.len() == 0 {
        Seq::empty()
    } else {
        spec_box_lines(width, lines.drop_last()) + spec_box_line(width, lines.last())
    }
}

/// A titled box around content lines: a frame of box-drawing characters,
/// the centered title, a separator, the padded content lines, and the
/// bottom border (without a trailing newline).
pub open spec fn spec_box_content(title: Seq<char>, lines: Seq<Seq<char>>) -> Seq<char> {
    let width = spec_box_width(title, lines);
    let tpad = (width - title.len()) / 2;
    let tpad_right = width - title.len() - tpad;
    seq!['\u{250c}'] + spec_repeat('\u{2500}', width as nat) + seq!['\u{2510}', '\n']
        + seq!['\u{2502}'] + spec_repeat(' ', tpad as nat) + title + spec_repeat(
        ' ',
        tpad_right as nat,
    ) + seq!['\u{2502}', '\n'] + seq!['\u{251c}'] + spec_repeat('\u{2500}', width as nat)
        + seq!['\u{2524}', '\n'] + spec_box_lines(width, lines) + seq!['\u{2514}'] + spec_repeat(
        '\u{2500}',
        width as nat,
    ) + seq!['\u{2518}']
}

/// A string of `n` copies of `c`.
fn repeat_char(c: char, n: usize) -> (r: String)
    ensures
        r@ == spec_repeat(c, n as nat),
{
    let mut r = String::new();
    let mut i: usize = 0;
    while i < n
        invariant
            i <= n,
            r@ == spec_repeat(c, i as nat),
        decreases n - i,
    {
        push_char(&mut r, c);
        i = i + 1;
    }
    r
}

/// The display width of a line: its number of characters.
fn display_width(s: &String) -> (r: usize)
    ensures
        r == s@.len(),
{
    s.as_str().unicode_len()
}

/// Create a box around content with a title.
#[verifier::rlimit(50)]
pub fn box_content(title: &str, lines: &Vec<String>) -> (r: String)
    ensures
        r@ == spec_box_content(title@, crate::model::views_of(lines@)),
{
    let ghost lv = crate::model::views_of(lines@);
    let title_width = sat_add(title.unicode_len(), 2);
    let n = lines.len();
    let mut max_line_width: usize = 0;
    let mut i: usize = 0;
    while i < n
        invariant
            n == lines@.len(),
            i <= n,
            lv == crate::model::views_of(lines@),
            max_line_width == spec_max_len(lv.take(i as int)),
        decreases n - i,
    {
        let w = display_width(&lines[i]);
        proof {
            assert(lv.take(i as int + 1).drop_last() =~= lv.take(i as int));
            assert(lv.take(i as int + 1).last() == lv[i as int]);
            assert(lv[i as int] == lines@[i as int]@);
        }
        if w > max_line_width {
            max_line_width = w;
        }
        i = i + 1;
    }
    proof {
        assert(lv.take(n as int) =~= lv);
    }
    let base = if title_width > max_line_width {
        title_width
    } else {
        max_line_width
    };
    let width = sat_add(base, 4);
    proof {
        assert(width == spec_box_width(title@, lv));
    }
    let tlen = title.unicode_len();
    let title_padding = (width - tlen) / 2;
    let title_padding_right = width - tlen - title_padding;
    let mut out = String::new();
    push_char(&mut out, '\u{250c}');
    let dash = repeat_char('\u{2500}', width);
    out.append(dash.as_str());
    push_char(&mut out, '\u{2510}');
    push_char(&mut out, '\n');
    push_char(&mut out, '\u{2502}');
    let p1 = repeat_char(' ', title_padding);
    out.append(p1.as_str());
    out.append(title);
    let p2 = repeat_char(' ', title_padding_right);
    out.append(p2.as_str());
    push_char(&mut out, '\u{2502}');
    push_char(&mut out, '\n');
    push_char(&mut out, '\u{251c}');
    out.append(dash.as_str());
    push_char(&mut out, '\u{2524}');
    push_char(&mut out, '\n');
    let ghost head = out@;
    let mut j: usize = 0;
    while j < n
        invariant
            n == lines@.len(),
            lv == crate::model::views_of(lines@),
            j <= n,
            width as int == spec_box_width(title@, lv),
            out@ == head + spec_box_lines(width as int, lv.take(j as int)),
        decreases n - j,
    {
        let line = &lines[j];
        push_char(&mut out, '\u{2502}');
        out.append(line.as_str());
        let lw = display_width(line);
        let pad = if width >= lw {
            width - lw
        } else {
            0
        };
        let ps = repeat_char(' ', pad);
        out.append(ps.as_str());
        push_char(&mut out, '\u{2502}');
        push_char(&mut out, '\n');
        j = j + 1;
        proof {
            assert(lv.take(j as int).drop_last() =~= lv.take(j as int - 1));
            assert(lv.take(j as int).last() == lv[j as int - 1]);
            assert(lv[j as int - 1] == lines@[j as int - 1]@);
            assert(out@ =~= head + spec_box_lines(width as int, lv.take(j as int)));
        }
    }
    proof {
        assert(lv.take(n as int) =~= lv);
    }
    push_char(&mut out, '\u{2514}');
    out.append(dash.as_str());
    push_char(&mut out, '\u{2518}');
    proof {
        assert(out@ =~= spec_box_content(title@, lv));
    }
    out
}

/// The export entry line of the handler chain, when the chain's first
/// instance is a tracked node.
pub open spec fn spec_hc_head(g: GraphView, chain: Seq<u32>) -> Seq<Seq<char>> {
    if chain.len() > 0 {
        match spec_node_at(g.nodes, chain[0]) {
            Some(n) => seq!["[Export: handler] \u{2500}\u{2500}> "@ + spec_label(n)],
            None => Seq::empty(),
        }
    } else {
        Seq::empty()
    }
}

/// The forwarding lines of the first `k` chain elements: one line per
/// adjacent pair whose two instances are both tracked nodes.
pub open spec fn spec_hc_windows(g: GraphView, chain: Seq<u32>, k: int) -> Seq<Seq<char>>
    decreases k,
{
    if k <= 1 {
        Seq::empty()
    } else {
        spec_hc_windows(g, chain, k - 1) + (match (
            spec_node_at(g.nodes, chain[k - 2]),
            spec_node_at(g.nodes, chain[k - 1]),
        ) {
            (Some(a), Some(b)) => seq![
                spec_label(a) + " \u{2500}\u{2500}handler\u{2500}\u{2500}> "@ + spec_label(b),
            ],
            _ => Seq::empty(),
        })
    }
}

/// The handler-chain box: the chain of `spec_chain` on the HTTP handler
/// interface rendered in request-flow order, or a placeholder line when
/// there is no handler chain.
pub open spec fn spec_handler_chain_ascii(g: GraphView) -> Seq<char> {
    let chain = spec_chain(g, "wasi:http/handler"@);
    if chain.len() == 0 {
        spec_box_content("Handler Chain"@, seq!["No HTTP handler chain found"@])
    } else {
        spec_box_content(
            "Handler Chain"@,
            spec_hc_head(g, chain) + spec_hc_windows(g, chain, chain.len() as int),
        )
    }
}

/// Generate the ASCII diagram showing only the HTTP handler chain, in
/// request-flow order (export first, innermost forwarder last).
#[verifier::rlimit(80)]
fn generate_handler_chain_ascii(graph: &CompositionGraph) -> (r: String)
    ensures
        r@ == spec_handler_chain_ascii(graph@),
{
    let ghost g = graph@;
    let chain = get_chain_for(graph, "wasi:http/handler");
    if chain.len() == 0 {
        let mut lines: Vec<String> = Vec::new();
        let mut l = String::new();
        l.append("No HTTP handler chain found");
        lines.push(l);
        proof {
            assert(crate::model::views_of(lines@) =~= seq!["No HTTP handler chain found"@]);
        }
        return box_content("Handler Chain", &lines);
    }
    let mut lines: Vec<String> = Vec::new();
    match graph.get_node(chain[0]) {
        Some(first_node) => {
            let mut l = String::new();
            l.append("[Export: handler] \u{2500}\u{2500}> ");
            l.append(first_node.display_label());
            lines.push(l);
            proof {
                assert(crate::model::views_of(lines@) =~= spec_hc_head(g, chain@));
            }
        },
        None => {
            proof {
                crate::model::lemma_node_at_iff_contains(g, chain@[0]);
                assert(crate::model::views_of(lines@) =~= spec_hc_head(g, chain@));
            }
        },
    }
    let n = chain.len();
    let mut k: usize = 1;
    while k < n
        invariant
            g == graph@,
            n == chain@.len(),
            1 <= k <= n,
            crate::model::views_of(lines@) == spec_hc_head(g, chain@) + spec_hc_windows(
                g,
                chain@,
                k as int,
            ),
        decreases n - k,
    {
        let from = graph.get_node(chain[k - 1]);
        let to = graph.get_node(chain[k]);
        match (from, to) {
            (Some(a), Some(b)) => {
                let ghost pre = crate::model::views_of(lines@);
                proof {
                    assert(pre.len() == lines@.len());
                }
                let mut l = String::new();
                l.append(a.display_label());
                l.append(" \u{2500}\u{2500}handler\u{2500}\u{2500}> ");
                l.append(b.display_label());
                let ghost lv = l@;
                lines.push(l);
                proof {
                    assert(lv =~= spec_label(a@) + " \u{2500}\u{2500}handler\u{2500}\u{2500}> "@
                        + spec_label(b@));
                    assert(crate::model::views_of(lines@) =~= pre.push(lv));
                    assert(crate::model::views_of(lines@) =~= spec_hc_head(g, chain@)
                        + spec_hc_windows(g, chain@, k as int + 1));
                }
            },
            _ => {
                proof {
                    crate::model::lemma_node_at_iff_contains(g, chain@[k as int - 1]);
                    crate::model::lemma_node_at_iff_contains(g, chain@[k as int]);
                    assert(crate::model::views_of(lines@) =~= spec_hc_head(g, chain@)
                        + spec_hc_windows(g, chain@, k as int + 1));
                }
            },
        }
        k = k + 1;
    }
    box_content("Handler Chain", &lines)
}

/// One line of the all-instances section: the display label, and either the
/// synthetic marker or the index of the instantiated definition.
pub open spec fn spec_full_inst_line(p: (u32, NodeView)) -> Seq<char> {
    if p.1.component_index == SYNTHETIC_COMPONENT {
        "  ["@ + spec_label(p.1) + "] (synthetic)"@
    } else {
        "  ["@ + spec_label(p.1) + "] [comp:"@ + spec_dec(p.1.component_index as int) + "]"@
    }
}

/// The all-instances lines of the first `k` node entries.
pub open spec fn spec_full_inst_lines(nodes: Seq<(u32, NodeView)>, k: int) -> Seq<Seq<char>>
    decreases k,
{
    if k <= 0 {
        Seq::empty()
    } else {
        spec_full_inst_lines(nodes, k - 1).push(spec_full_inst_line(nodes[k - 1]))
    }
}

/// The connection lines of one node's first `j` imports: one line per
/// non-host import whose recorded source is a tracked node, naming the
/// source label, the full interface name, and the node's label.
pub open spec fn spec_full_conns_of_node(g: GraphView, n: NodeView, j: int) -> Seq<Seq<char>>
    decreases j,
{
    if j <= 0 {
        Seq::empty()
    } else {
        let prev = spec_full_conns_of_node(g, n, j - 1);
        let c = n.imports[j - 1];
        if !c.is_host {
            match c.source {
                Some(s) => match spec_node_at(g.nodes, s) {
                    Some(sn) => prev.push(
                        "  ["@ + spec_label(sn) + "] \u{2500}\u{2500}"@ + c.interface
                            + "\u{2500}\u{2500}> ["@ + spec_label(n) + "]"@,
                    ),
                    None => prev,
                },
                None => prev,
            }
        } else {
            prev
        }
    }
}

/// The connection lines of the first `i` node entries.
pub open spec fn spec_full_conn_lines(g: GraphView, i: int) -> Seq<Seq<char>>
    decreases i,
{
    if i <= 0 {
        Seq::empty()
    } else {
        spec_full_conn_lines(g, i - 1) + spec_full_conns_of_node(
            g,
            g.nodes[i - 1].1,
            g.nodes[i - 1].1.imports.len() as int,
        )
    }
}

/// The export lines of the first `k` export entries: one line per export
/// whose target is a tracked node, naming the label and the full export
/// name.
pub open spec fn spec_full_export_lines(g: GraphView, k: int) -> Seq<Seq<char>>
    decreases k,
{
    if k <= 0 {
        Seq::empty()
    } else {
        let prev = spec_full_export_lines(g, k - 1);
        match spec_node_at(g.nodes, g.exports[k - 1].1) {
            Some(n) => prev.push(
                "  ["@ + spec_label(n) + "] \u{2500}\u{2500}> (Export: "@ + g.exports[k - 1].0
                    + ")"@,
            ),
            None => prev,
        }
    }
}

/// The full diagram: every instance with its definition index, every
/// resolvable non-host connection with its full interface name, and every
/// resolvable export with its full name.
pub open spec fn spec_full_ascii(g: GraphView) -> Seq<char> {
    let inst_lines = if g.nodes.len() == 0 {
        seq!["  No instances found"@]
    } else {
        spec_full_inst_lines(g.nodes, g.nodes.len() as int)
    };
    let conn_lines = spec_full_conn_lines(g, g.nodes.len() as int) + spec_full_export_lines(
        g,
        g.exports.len() as int,
    );
    spec_box_content("All Instances"@, inst_lines) + seq!['\n'] + (if conn_lines.len() > 0 {
        spec_box_content("Connections"@, conn_lines)
    } else {
        Seq::empty()
    })
}

/// Generate the full ASCII diagram with all details.
#[verifier::rlimit(80)]
fn generate_full_ascii(graph: &CompositionGraph) -> (r: String)
    ensures
        r@ == spec_full_ascii(graph@),
{
    let ghost g = graph@;
    let n = graph.nodes.len();
    let mut inst_lines: Vec<String> = Vec::new();
    let mut i: usize = 0;
    while i < n
        invariant
            g == graph@,
            n == graph.nodes@.len(),
            i <= n,
            views_of(inst_lines@) == spec_full_inst_lines(g.nodes, i as int),
        decreases n - i,
    {
        let node = &graph.nodes[i].1;
        proof {
            assert(g.nodes[i as int].1 == node@);
        }
        let ghost pre = views_of(inst_lines@);
        proof {
            assert(pre.len() == inst_lines@.len());
        }
        let mut l = String::new();
        l.append("  [");
        l.append(node.display_label());
        if node.component_index == SYNTHETIC_COMPONENT {
            l.append("] (synthetic)");
            proof {
                assert(l@ =~= spec_full_inst_line(g.nodes[i as int]));
            }
        } else {
            l.append("] [comp:");
            let d = u32_dec_string(node.component_index);
            l.append(d.as_str());
            l.append("]");
            proof {
                assert(l@ =~= spec_full_inst_line(g.nodes[i as int]));
            }
        }
        let ghost lv = l@;
        inst_lines.push(l);
        i = i + 1;
        proof {
            assert(views_of(inst_lines@) =~= pre.push(lv));
            assert(views_of(inst_lines@) =~= spec_full_inst_lines(g.nodes, i as int));
        }
    }
    if inst_lines.len() == 0 {
        let mut l = String::new();
        l.append("  No instances found");
        inst_lines.push(l);
        proof {
            assert(g.nodes.len() == 0);
            assert(views_of(inst_lines@) =~= seq!["  No instances found"@]);
        }
    } else {
        proof {
            assert(g.nodes.len() > 0);
        }
    }
    let mut out = box_content("All Instances", &inst_lines);
    push_char(&mut out, '\n');
    let mut conn_lines: Vec<String> = Vec::new();
    let mut i2: usize = 0;
    while i2 < n
        invariant
            g == graph@,
            n == graph.nodes@.len(),
            i2 <= n,
            views_of(conn_lines@) == spec_full_conn_lines(g, i2 as int),
        decreases n - i2,
    {
        let node = &graph.nodes[i2].1;
        proof {
            assert(g.nodes[i2 as int].1 == node@);
        }
        let m = node.imports.len();
        let mut j: usize = 0;
        while j < m
            invariant
                g == graph@,
                n == graph.nodes@.len(),
                i2 < n,
                node == &graph.nodes@[i2 as int].1,
                node@ == g.nodes[i2 as int].1,
                m == node.imports@.len(),
                j <= m,
                views_of(conn_lines@) == spec_full_conn_lines(g, i2 as int)
                    + spec_full_conns_of_node(g, g.nodes[i2 as int].1, j as int),
            decreases m - j,
        {
            let conn = &node.imports[j];
            proof {
                assert(g.nodes[i2 as int].1.imports[j as int] == conn@);
            }
            if !conn.is_host_import {
                match conn.source_instance {
                    Some(src) => {
                        match graph.get_node(src) {
                            Some(sn) => {
                                let ghost pre = views_of(conn_lines@);
                                proof {
                                    assert(pre.len() == conn_lines@.len());
                                }
                                let mut l = String::new();
                                l.append("  [");
                                l.append(sn.display_label());
                                l.append("] \u{2500}\u{2500}");
                                l.append(conn.interface_name.as_str());
                                l.append("\u{2500}\u{2500}> [");
                                l.append(node.display_label());
                                l.append("]");
                                let ghost lv = l@;
                                conn_lines.push(l);
                                proof {
                                    assert(lv =~= "  ["@ + spec_label(sn@) + "] \u{2500}\u{2500}"@
                                        + conn@.interface + "\u{2500}\u{2500}> ["@ + spec_label(
                                        node@,
                                    ) + "]"@);
                                    assert(views_of(conn_lines@) =~= pre.push(lv));
                                    assert(views_of(conn_lines@) =~= spec_full_conn_lines(
                                        g,
                                        i2 as int,
                                    ) + spec_full_conns_of_node(
                                        g,
                                        g.nodes[i2 as int].1,
                                        j as int + 1,
                                    ));
                                }
                            },
                            None => {
                                proof {
                                    crate::model::lemma_node_at_iff_contains(g, src);
                                    assert(views_of(conn_lines@) =~= spec_full_conn_lines(
                                        g,
                                        i2 as int,
                                    ) + spec_full_conns_of_node(
                                        g,
                                        g.nodes[i2 as int].1,
                                        j as int + 1,
                                    ));
                                }
                            },
                        }
                    },
                    None => {
                        proof {
                            assert(views_of(conn_lines@) =~= spec_full_conn_lines(g, i2 as int)
                                + spec_full_conns_of_node(
                                g,
                                g.nodes[i2 as int].1,
                                j as int + 1,
                            ));
                        }
                    },
                }
            } else {
                proof {
                    assert(views_of(conn_lines@) =~= spec_full_conn_lines(g, i2 as int)
                        + spec_full_conns_of_node(g, g.nodes[i2 as int].1, j as int + 1));
                }
            }
            j = j + 1;
        }
        i2 = i2 + 1;
        proof {
            assert(views_of(conn_lines@) =~= spec_full_conn_lines(g, i2 as int));
        }
    }
    let ne = graph.component_exports.len();
    let mut k: usize = 0;
    while k < ne
        invariant
            g == graph@,
            ne == graph.component_exports@.len(),
            k <= ne,
            views_of(conn_lines@) == spec_full_conn_lines(g, g.nodes.len() as int)
                + spec_full_export_lines(g, k as int),
        decreases ne - k,
    {
        let e = &graph.component_exports[k];
        proof {
            assert(g.exports[k as int] == (e.0@, e.1));
        }
        match graph.get_node(e.1) {
            Some(node) => {
                let ghost pre = views_of(conn_lines@);
                proof {
                    assert(pre.len() == conn_lines@.len());
                }
                let mut l = String::new();
                l.append("  [");
                l.append(node.display_label());
                l.append("] \u{2500}\u{2500}> (Export: ");
                l.append(e.0.as_str());
                l.append(")");
                let ghost lv = l@;
                conn_lines.push(l);
                proof {
                    assert(lv =~= "  ["@ + spec_label(node@) + "] \u{2500}\u{2500}> (Export: "@
                        + g.exports[k as int].0 + ")"@);
                    assert(views_of(conn_lines@) =~= pre.push(lv));
                    assert(views_of(conn_lines@) =~= spec_full_conn_lines(g, g.nodes.len() as int)
                        + spec_full_export_lines(g, k as int + 1));
                }
            },
            None => {
                proof {
                    crate::model::lemma_node_at_iff_contains(g, e.1);
                    assert(views_of(conn_lines@) =~= spec_full_conn_lines(g, g.nodes.len() as int)
                        + spec_full_export_lines(g, k as int + 1));
                }
            },
        }
        k = k + 1;
    }
    if conn_lines.len() > 0 {
        let b = box_content("Connections", &conn_lines);
        out.append(b.as_str());
        proof {
            assert(out@ =~= spec_full_ascii(g));
        }
    } else {
        proof {
            assert(out@ =~= spec_full_ascii(g));
        }
    }
    out
}

/// `hosts` is exactly the deduplicated, lexicographically sorted list of
/// host interface names of the graph's real nodes.
pub open spec fn host_list_ok(g: GraphView, hosts: Seq<Seq<char>>) -> bool {
    strings_sorted(hosts) && forall|x: Seq<char>| #[trigger]
        seqs_contain(hosts, x) == spec_is_host_interface(g, x)
}

/// The host-imports lines: one per host interface, with its short label.
pub open spec fn spec_host_lines(hosts: Seq<Seq<char>>, k: int) -> Seq<Seq<char>>
    decreases k,
{
    if k <= 0 {
        Seq::empty()
    } else {
        spec_host_lines(hosts, k - 1).push("  {"@ + spec_short_name(hosts[k - 1]) + "}"@)
    }
}

/// The component-instances lines: one per real node, with its label.
pub open spec fn spec_ai_inst_lines(rn: Seq<NodeView>, k: int) -> Seq<Seq<char>>
    decreases k,
{
    if k <= 0 {
        Seq::empty()
    } else {
        spec_ai_inst_lines(rn, k - 1).push("  ["@ + spec_label(rn[k - 1]) + "]"@)
    }
}

/// The connection lines of one real node's first `j` imports: a dashed line
/// per host import, a solid line per import supplied by a tracked real
/// node; both use short interface labels.
pub open spec fn spec_ai_conns_of_node(g: GraphView, n: NodeView, j: int) -> Seq<Seq<char>>
    decreases j,
{
    if j <= 0 {
        Seq::empty()
    } else {
        let prev = spec_ai_conns_of_node(g, n, j - 1);
        let c = n.imports[j - 1];
        if c.is_host {
            prev.push(
                "  {"@ + spec_short_name(c.interface) + "} -."@ + spec_short_name(c.interface)
                    + ".- ["@ + spec_label(n) + "]"@,
            )
        } else {
            match c.source {
                Some(s) => match spec_node_at(g.nodes, s) {
                    Some(sn) => if sn.component_index != SYNTHETIC_COMPONENT {
                        prev.push(
                            "  ["@ + spec_label(sn) + "] \u{2500}\u{2500}"@ + spec_short_name(
                                c.interface,
                            ) + "\u{2500}\u{2500}> ["@ + spec_label(n) + "]"@,
                        )
                    } else {
                        prev
                    },
                    None => prev,
                },
                None => prev,
            }
        }
    }
}

/// The connection lines of the first `i` real nodes.
pub open spec fn spec_ai_conn_lines(g: GraphView, rn: Seq<NodeView>, i: int) -> Seq<Seq<char>>
    decreases i,
{
    if i <= 0 {
        Seq::empty()
    } else {
        spec_ai_conn_lines(g, rn, i - 1) + spec_ai_conns_of_node(
            g,
            rn[i - 1],
            rn[i - 1].imports.len() as int,
        )
    }
}

/// The export lines of the first `k` export entries: one per export whose
/// target is a tracked real node, with the export's short label.
pub open spec fn spec_ai_export_lines(g: GraphView, k: int) -> Seq<Seq<char>>
    decreases k,
{
    if k <= 0 {
        Seq::empty()
    } else {
        let prev = spec_ai_export_lines(g, k - 1);
        match spec_node_at(g.nodes, g.exports[k - 1].1) {
            Some(n) => if n.component_index != SYNTHETIC_COMPONENT {
                prev.push(
                    "  ["@ + spec_label(n) + "] \u{2500}\u{2500}> (Export: "@ + spec_short_name(
                        g.exports[k - 1].0,
                    ) + ")"@,
                )
            } else {
                prev
            },
            None => prev,
        }
    }
}

/// The all-interfaces diagram for a given host list: the host imports box
/// (when any), the component instances box, and the connections box (when
/// any connection or export line exists).
pub open spec fn spec_all_ifaces_ascii(g: GraphView, hosts: Seq<Seq<char>>) -> Seq<char> {
    let rn = spec_real_nodes(g.nodes);
    let conn_lines = spec_ai_conn_lines(g, rn, rn.len() as int) + spec_ai_export_lines(
        g,
        g.exports.len() as int,
    );
    (if hosts.len() > 0 {
        spec_box_content("Host Imports"@, spec_host_lines(hosts, hosts.len() as int)) + seq!['\n']
    } else {
        Seq::empty()
    }) + spec_box_content("Component Instances"@, spec_ai_inst_lines(rn, rn.len() as int))
        + seq!['\n'] + (if conn_lines.len() > 0 {
        spec_box_content("Connections"@, conn_lines)
    } else {
        Seq::empty()
    })
}

/// Generate the ASCII diagram showing all interface connections. The host
/// list is the one `host_interfaces` computes: sorted, deduplicated, and
/// containing exactly the host interface names of the real nodes.
#[verifier::rlimit(80)]
fn generate_all_interfaces_ascii(graph: &CompositionGraph) -> (r: String)
    ensures
        spec_real_nodes(graph@.nodes).len() == 0 ==> r@ == spec_box_content(
            "Component Instances"@,
            seq!["No component instances found"@],
        ),
        spec_real_nodes(graph@.nodes).len() > 0 ==> exists|hosts: Seq<Seq<char>>|
            #[trigger] host_list_ok(graph@, hosts) && r@ == spec_all_ifaces_ascii(graph@, hosts),
{
    let ghost g = graph@;
    let component_nodes = graph.real_nodes();
    let ghost rn = spec_real_nodes(g.nodes);
    let nr = component_nodes.len();
    proof {
        assert(ref_nodes_view(component_nodes@).len() == component_nodes@.len());
    }
    if nr == 0 {
        let mut lines: Vec<String> = Vec::new();
        let mut l = String::new();
        l.append("No component instances found");
        lines.push(l);
        proof {
            assert(views_of(lines@) =~= seq!["No component instances found"@]);
        }
        return box_content("Component Instances", &lines);
    }
    let host_interfaces = graph.host_interfaces();
    let ghost hosts = views_of(host_interfaces@);
    proof {
        assert(host_list_ok(g, hosts)) by {
            assert forall|x: Seq<char>| #[trigger]
                seqs_contain(hosts, x) == spec_is_host_interface(g, x) by {
                assert(hosts.len() == host_interfaces@.len());
                if seqs_contain(hosts, x) {
                    let t = choose|t: int| 0 <= t < hosts.len() && hosts[t] == x;
                    assert(host_interfaces@[t]@ == x);
                    assert(crate::model::names_contain(host_interfaces@, x));
                }
                if crate::model::names_contain(host_interfaces@, x) {
                    let t = choose|t: int|
                        0 <= t < host_interfaces@.len() && host_interfaces@[t]@ == x;
                    assert(hosts[t] == x);
                    assert(seqs_contain(hosts, x));
                }
            }
        }
    }
    let mut out = String::new();
    let nh = host_interfaces.len();
    if nh > 0 {
        let mut host_lines: Vec<String> = Vec::new();
        let mut h: usize = 0;
        while h < nh
            invariant
                nh == host_interfaces@.len(),
                hosts == views_of(host_interfaces@),
                h <= nh,
                views_of(host_lines@) == spec_host_lines(hosts, h as int),
            decreases nh - h,
        {
            let ghost pre = views_of(host_lines@);
            proof {
                assert(pre.len() == host_lines@.len());
                assert(hosts[h as int] == host_interfaces@[h as int]@);
            }
            let short = short_interface_name(host_interfaces[h].as_str());
            let mut l = String::new();
            l.append("  {");
            l.append(short.as_str());
            l.append("}");
            let ghost lv = l@;
            host_lines.push(l);
            h = h + 1;
            proof {
                assert(lv =~= "  {"@ + spec_short_name(hosts[h as int - 1]) + "}"@);
                assert(views_of(host_lines@) =~= pre.push(lv));
                assert(views_of(host_lines@) =~= spec_host_lines(hosts, h as int));
            }
        }
        let b = box_content("Host Imports", &host_lines);
        out.append(b.as_str());
        push_char(&mut out, '\n');
    }
    let ghost head = out@;
    proof {
        assert(head =~= (if hosts.len() > 0 {
            spec_box_content("Host Imports"@, spec_host_lines(hosts, hosts.len() as int))
                + seq!['\n']
        } else {
            Seq::<char>::empty()
        }));
    }
    let mut inst_lines: Vec<String> = Vec::new();
    let mut t: usize = 0;
    while t < nr
        invariant
            g == graph@,
            rn == spec_real_nodes(g.nodes),
            nr == component_nodes@.len(),
            ref_nodes_view(component_nodes@) == rn,
            t <= nr,
            views_of(inst_lines@) == spec_ai_inst_lines(rn, t as int),
        decreases nr - t,
    {
        let node = component_nodes[t];
        proof {
            assert(rn[t as int] == component_nodes@[t as int]@);
        }
        let ghost pre = views_of(inst_lines@);
        proof {
            assert(pre.len() == inst_lines@.len());
        }
        let mut l = String::new();
        l.append("  [");
        l.append(node.display_label());
        l.append("]");
        let ghost lv = l@;
        inst_lines.push(l);
        t = t + 1;
        proof {
            assert(lv =~= "  ["@ + spec_label(rn[t as int - 1]) + "]"@);
            assert(views_of(inst_lines@) =~= pre.push(lv));
            assert(views_of(inst_lines@) =~= spec_ai_inst_lines(rn, t as int));
        }
    }
    let b2 = box_content("Component Instances", &inst_lines);
    out.append(b2.as_str());
    push_char(&mut out, '\n');
    let ghost head2 = out@;
    let mut conn_lines: Vec<String> = Vec::new();
    let mut t2: usize = 0;
    while t2 < nr
        invariant
            g == graph@,
            rn == spec_real_nodes(g.nodes),
            nr == component_nodes@.len(),
            ref_nodes_view(component_nodes@) == rn,
            t2 <= nr,
            views_of(conn_lines@) == spec_ai_conn_lines(g, rn, t2 as int),
        decreases nr - t2,
    {
        let node = component_nodes[t2];
        proof {
            assert(rn[t2 as int] == component_nodes@[t2 as int]@);
        }
        let m = node.imports.len();
        let mut j: usize = 0;
        while j < m
            invariant
                g == graph@,
                rn == spec_real_nodes(g.nodes),
                nr == component_nodes@.len(),
                t2 < nr,
                node == component_nodes@[t2 as int],
                node@ == rn[t2 as int],
                m == node.imports@.len(),
                j <= m,
                views_of(conn_lines@) == spec_ai_conn_lines(g, rn, t2 as int)
                    + spec_ai_conns_of_node(g, rn[t2 as int], j as int),
            decreases m - j,
        {
            let conn = &node.imports[j];
            proof {
                assert(rn[t2 as int].imports[j as int] == conn@);
            }
            if conn.is_host_import {
                let ghost pre = views_of(conn_lines@);
                proof {
                    assert(pre.len() == conn_lines@.len());
                }
                let short = conn.short_label();
                let mut l = String::new();
                l.append("  {");
                l.append(short.as_str());
                l.append("} -.");
                l.append(short.as_str());
                l.append(".- [");
                l.append(node.display_label());
                l.append("]");
                let ghost lv = l@;
                conn_lines.push(l);
                proof {
                    assert(lv =~= "  {"@ + spec_short_name(conn@.interface) + "} -."@
                        + spec_short_name(conn@.interface) + ".- ["@ + spec_label(node@) + "]"@);
                    assert(views_of(conn_lines@) =~= pre.push(lv));
                    assert(views_of(conn_lines@) =~= spec_ai_conn_lines(g, rn, t2 as int)
                        + spec_ai_conns_of_node(g, rn[t2 as int], j as int + 1));
                }
            } else {
                match conn.source_instance {
                    Some(src) => {
                        match graph.get_node(src) {
                            Some(sn) => {
                                if sn.component_index != SYNTHETIC_COMPONENT {
                                    let ghost pre = views_of(conn_lines@);
                                    proof {
                                        assert(pre.len() == conn_lines@.len());
                                    }
                                    let short = conn.short_label();
                                    let mut l = String::new();
                                    l.append("  [");
                                    l.append(sn.display_label());
                                    l.append("] \u{2500}\u{2500}");
                                    l.append(short.as_str());
                                    l.append("\u{2500}\u{2500}> [");
                                    l.append(node.display_label());
                                    l.append("]");
                                    let ghost lv = l@;
                                    conn_lines.push(l);
                                    proof {
                                        assert(lv =~= "  ["@ + spec_label(sn@)
                                            + "] \u{2500}\u{2500}"@ + spec_short_name(
                                            conn@.interface,
                                        ) + "\u{2500}\u{2500}> ["@ + spec_label(node@) + "]"@);
                                        assert(views_of(conn_lines@) =~= pre.push(lv));
                                        assert(views_of(conn_lines@) =~= spec_ai_conn_lines(
                                            g,
                                            rn,
                                            t2 as int,
                                        ) + spec_ai_conns_of_node(
                                            g,
                                            rn[t2 as int],
                                            j as int + 1,
                                        ));
                                    }
                                } else {
                                    proof {
                                        assert(views_of(conn_lines@) =~= spec_ai_conn_lines(
                                            g,
                                            rn,
                                            t2 as int,
                                        ) + spec_ai_conns_of_node(
                                            g,
                                            rn[t2 as int],
                                            j as int + 1,
                                        ));
                                    }
                                }
                            },
                            None => {
                                proof {
                                    crate::model::lemma_node_at_iff_contains(g, src);
                                    assert(views_of(conn_lines@) =~= spec_ai_conn_lines(
                                        g,
                                        rn,
                                        t2 as int,
                                    ) + spec_ai_conns_of_node(g, rn[t2 as int], j as int + 1));
                                }
                            },
                        }
                    },
                    None => {
                        proof {
                            assert(views_of(conn_lines@) =~= spec_ai_conn_lines(g, rn, t2 as int)
                                + spec_ai_conns_of_node(g, rn[t2 as int], j as int + 1));
                        }
                    },
                }
            }
            j = j + 1;
        }
        t2 = t2 + 1;
        proof {
            assert(views_of(conn_lines@) =~= spec_ai_conn_lines(g, rn, t2 as int));
        }
    }
    let ne = graph.component_exports.len();
    let mut k: usize = 0;
    while k < ne
        invariant
            g == graph@,
            rn == spec_real_nodes(g.nodes),
            ne == graph.component_exports@.len(),
            k <= ne,
            views_of(conn_lines@) == spec_ai_conn_lines(g, rn, rn.len() as int)
                + spec_ai_export_lines(g, k as int),
        decreases ne - k,
    {
        let e = &graph.component_exports[k];
        proof {
            assert(g.exports[k as int] == (e.0@, e.1));
        }
        match graph.get_node(e.1) {
            Some(node) => {
                if node.component_index != SYNTHETIC_COMPONENT {
                    let ghost pre = views_of(conn_lines@);
                    proof {
                        assert(pre.len() == conn_lines@.len());
                    }
                    let short = short_interface_name(e.0.as_str());
                    let mut l = String::new();
                    l.append("  [");
                    l.append(node.display_label());
                    l.append("] \u{2500}\u{2500}> (Export: ");
                    l.append(short.as_str());
                    l.append(")");
                    let ghost lv = l@;
                    conn_lines.push(l);
                    proof {
                        assert(lv =~= "  ["@ + spec_label(node@) + "] \u{2500}\u{2500}> (Export: "@
                            + spec_short_name(g.exports[k as int].0) + ")"@);
                        assert(views_of(conn_lines@) =~= pre.push(lv));
                        assert(views_of(conn_lines@) =~= spec_ai_conn_lines(g, rn, rn.len() as int)
                            + spec_ai_export_lines(g, k as int + 1));
                    }
                } else {
                    proof {
                        assert(views_of(conn_lines@) =~= spec_ai_conn_lines(g, rn, rn.len() as int)
                            + spec_ai_export_lines(g, k as int + 1));
                    }
                }
            },
            None => {
                proof {
                    crate::model::lemma_node_at_iff_contains(g, e.1);
                    assert(views_of(conn_lines@) =~= spec_ai_conn_lines(g, rn, rn.len() as int)
                        + spec_ai_export_lines(g, k as int + 1));
                }
            },
        }
        k = k + 1;
    }
    if conn_lines.len() > 0 {
        let b3 = box_content("Connections", &conn_lines);
        out.append(b3.as_str());
        proof {
            assert(out@ =~= spec_all_ifaces_ascii(g, hosts));
            assert(host_list_ok(g, hosts) && out@ == spec_all_ifaces_ascii(g, hosts));
        }
    } else {
        proof {
            assert(out@ =~= spec_all_ifaces_ascii(g, hosts));
            assert(host_list_ok(g, hosts) && out@ == spec_all_ifaces_ascii(g, hosts));
        }
    }
    out
}

/// Generate an ASCII diagram from the composition graph, at the requested
/// detail level.
pub fn generate_ascii(graph: &CompositionGraph, detail: DetailLevel) -> (r: String)
    ensures
        detail is HandlerChain ==> r@ == spec_handler_chain_ascii(graph@),
        detail is Full ==> r@ == spec_full_ascii(graph@),
        detail is AllInterfaces && spec_real_nodes(graph@.nodes).len() == 0 ==> r@
            == spec_box_content("Component Instances"@, seq!["No component instances found"@]),
        detail is AllInterfaces && spec_real_nodes(graph@.nodes).len() > 0 ==> exists|
            hosts: Seq<Seq<char>>,
        | #[trigger] host_list_ok(graph@, hosts) && r@ == spec_all_ifaces_ascii(graph@, hosts),
{
    match detail {
        DetailLevel::HandlerChain => generate_handler_chain_ascii(graph),
        DetailLevel::AllInterfaces => generate_all_interfaces_ascii(graph),
        DetailLevel::Full => generate_full_ascii(graph),
    }
}

} // verus!
