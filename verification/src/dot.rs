//! Rendering the plan as a graph-description text.
//!
//! This builds the text only; writing it to disk and invoking a drawing tool
//! are left to the caller. Rates are printed in fixed-point decimal, rounded
//! to the nearest value with ties rounded up.

use crate::graph::{Color, Edge, EdgeV, Node, NodeV};
use crate::rat::{Frac, Ratio};
use vstd::prelude::*;

verus! {

/// The dot color keyword for a display color.
pub open spec fn spec_dot_color(c: Color) -> Seq<char> {
    match c {
        Color::Green => "darkgreen"@,
        Color::Yellow => "orange"@,
        Color::Orange => "orange"@,
        Color::Red => "red"@,
        Color::Blue => "blue"@,
        Color::Black => "black"@,
    }
}

/// The dot color keyword for a display color.
pub fn to_dot_color(color: &Color) -> (r: &'static str)
    ensures
        r@ == spec_dot_color(*color),
{
    match color {
        Color::Green => "darkgreen",
        Color::Yellow => "orange",
        Color::Orange => "orange",
        Color::Red => "red",
        Color::Blue => "blue",
        Color::Black => "black",
    }
}

/// The decimal digit character for `d`.
pub open spec fn spec_digit(d: int) -> char {
    if d == 0 {
        '0'
    } else if d == 1 {
        '1'
    } else if d == 2 {
        '2'
    } else if d == 3 {
        '3'
    } else if d == 4 {
        '4'
    } else if d == 5 {
        '5'
    } else if d == 6 {
        '6'
    } else if d == 7 {
        '7'
    } else if d == 8 {
        '8'
    } else {
        '9'
    }
}

/// The decimal numeral of `n`.
pub open spec fn spec_dec(n: nat) -> Seq<char>
    decreases n,
{
    if n < 10 {
        seq![spec_digit(n as int)]
    } else {
        spec_dec(n / 10) + seq![spec_digit((n % 10) as int)]
    }
}

fn digit_str(d: u64) -> (r: &'static str)
    requires
        d < 10,
    ensures
        r@ == seq![spec_digit(d as int)],
{
    let r: &'static str = match d {
        0 => "0",
        1 => "1",
        2 => "2",
        3 => "3",
        4 => "4",
        5 => "5",
        6 => "6",
        7 => "7",
        8 => "8",
        _ => "9",
    };
    proof {
        reveal_strlit("0");
        reveal_strlit("1");
        reveal_strlit("2");
        reveal_strlit("3");
        reveal_strlit("4");
        reveal_strlit("5");
        reveal_strlit("6");
        reveal_strlit("7");
        reveal_strlit("8");
        reveal_strlit("9");
        assert(r@ =~= seq![spec_digit(d as int)]);
    }
    r
}

/// The decimal numeral of `n`.
pub fn u64_dec(n: u64) -> (r: String)
    ensures
        r@ == spec_dec(n as nat),
    decreases n,
{
    if n < 10 {
        digit_str(n).to_owned()
    } else {
        let mut s = u64_dec(n / 10);
        s.append(digit_str(n % 10));
        proof {
            assert(s@ =~= spec_dec(n as nat));
        }
        s
    }
}

/// The value of `f` scaled by `scale` and rounded to the nearest whole
/// number, ties up.
pub open spec fn spec_rounded(f: Frac, scale: int) -> int {
    (2 * f.num * scale + f.den) / (2 * f.den)
}

/// `f` with two decimal places, rounded to nearest, ties up.
pub open spec fn spec_fixed2(f: Frac) -> Seq<char> {
    let v = spec_rounded(f, 100);
    spec_dec((v / 100) as nat) + "."@ + (if v % 100 < 10 {
        "0"@ + spec_dec((v % 100) as nat)
    } else {
        spec_dec((v % 100) as nat)
    })
}

/// `f` with one decimal place, rounded to nearest, ties up.
pub open spec fn spec_fixed1(f: Frac) -> Seq<char> {
    let v = spec_rounded(f, 10);
    spec_dec((v / 10) as nat) + "."@ + spec_dec((v % 10) as nat)
}

/// The scaled, rounded value of a ratio.
/// The scaled sum stays far below the computation width.
proof fn lemma_round_bound(num: int, den: int, scale: int)
    by (nonlinear_arith)
    requires
        0 <= num < 0x1_0000_0000,
        1 <= den < 0x1_0000_0000,
        1 <= scale <= 100,
    ensures
        0 <= 2 * num * scale + den < 0x1_0000_0000_0000,
{
}

fn rounded(r: &Ratio, scale: u64) -> (v: u64)
    requires
        r.wf(),
        1 <= scale <= 100,
    ensures
        v == spec_rounded(r@, scale as int),
{
    proof {
        lemma_round_bound(r@.num, r@.den, scale as int);
    }
    let num = r.num() as u128;
    let den = r.den() as u128;
    let t: u128 = 2 * num * (scale as u128) + den;
    let v = t / (2 * den);
    proof {
        vstd::arithmetic::div_mod::lemma_div_nonincreasing(t as int, 2 * den as int);
    }
    v as u64
}

/// Format a rate with two decimal places (rounded to nearest, ties up).
pub fn fmt_fixed2(r: &Ratio) -> (s: String)
    requires
        r.wf(),
    ensures
        s@ == spec_fixed2(r@),
{
    let v = rounded(r, 100);
    let mut s = u64_dec(v / 100);
    s.append(".");
    proof {
        reveal_strlit(".");
        reveal_strlit("0");
    }
    if v % 100 < 10 {
        s.append("0");
    }
    let frac = u64_dec(v % 100);
    s.append(frac.as_str());
    proof {
        assert(s@ =~= spec_fixed2(r@));
    }
    s
}

/// Format a rate with one decimal place (rounded to nearest, ties up).
pub fn fmt_fixed1(r: &Ratio) -> (s: String)
    requires
        r.wf(),
    ensures
        s@ == spec_fixed1(r@),
{
    let v = rounded(r, 10);
    let mut s = u64_dec(v / 10);
    s.append(".");
    proof {
        reveal_strlit(".");
    }
    let frac = u64_dec(v % 10);
    s.append(frac.as_str());
    proof {
        assert(s@ =~= spec_fixed1(r@));
    }
    s
}

/// The dot line describing one node.
pub open spec fn spec_dot_node(n: NodeV) -> Seq<char> {
    n.id + " [label=\""@ + n.name + "\\n"@ + spec_fixed2(n.amount) + "/s\\n"@ + spec_fixed2(
        n.source_amount,
    ) + " "@ + n.source_name + "\",color=\""@ + spec_dot_color(n.color) + "\",URL=\"./"@ + n.id
        + ".dot.svg\"];"@
}

/// The dot line describing one node.
pub fn to_dot_node(node: &Node) -> (r: String)
    requires
        node.amount.wf(),
        node.source_amount.wf(),
    ensures
        r@ == spec_dot_node(node@),
{
    let mut s = node.id.clone();
    s.append(" [label=\"");
    s.append(node.name.as_str());
    s.append("\\n");
    let a = fmt_fixed2(&node.amount);
    s.append(a.as_str());
    s.append("/s\\n");
    let sa = fmt_fixed2(&node.source_amount);
    s.append(sa.as_str());
    s.append(" ");
    s.append(node.source_name.as_str());
    s.append("\",color=\"");
    s.append(to_dot_color(&node.color));
    s.append("\",URL=\"./");
    s.append(node.id.as_str());
    s.append(".dot.svg\"];");
    proof {
        assert(s@ =~= spec_dot_node(node@));
    }
    s
}

/// The dot line describing one edge: flow rate and share-colored.
pub open spec fn spec_dot_edge(e: EdgeV) -> Seq<char> {
    e.from + " -> "@ + e.to + " [label=\""@ + spec_fixed1(e.amount) + " "@ + e.from + "/s ("@
        + spec_fixed1(e.source_amount) + ")\",color=\""@ + spec_dot_color(e.color) + "\"];"@
}

/// The dot line describing one edge.
pub fn to_dot_edge(edge: &Edge) -> (r: String)
    requires
        edge.amount.wf(),
        edge.source_amount.wf(),
    ensures
        r@ == spec_dot_edge(edge@),
{
    let mut s = edge.from.clone();
    s.append(" -> ");
    s.append(edge.to.as_str());
    s.append(" [label=\"");
    let a = fmt_fixed1(&edge.amount);
    s.append(a.as_str());
    s.append(" ");
    s.append(edge.from.as_str());
    s.append("/s (");
    let sa = fmt_fixed1(&edge.source_amount);
    s.append(sa.as_str());
    s.append(")\",color=\"");
    s.append(to_dot_color(&edge.color));
    s.append("\"];");
    proof {
        assert(s@ =~= spec_dot_edge(edge@));
    }
    s
}

/// Well-formed rates across a node list.
pub open spec fn nodes_rates_wf(ns: Seq<Node>) -> bool {
    forall|i: int|
        0 <= i < ns.len() ==> (#[trigger] ns[i]).amount.wf() && ns[i].source_amount.wf()
}

/// Well-formed rates across an edge list.
pub open spec fn edges_rates_wf(es: Seq<Edge>) -> bool {
    forall|i: int|
        0 <= i < es.len() ==> (#[trigger] es[i]).amount.wf() && es[i].source_amount.wf()
}

/// The node lines of the first `k` nodes, each on its own line.
pub open spec fn spec_node_lines(ns: Seq<NodeV>, k: nat) -> Seq<char>
    decreases k,
{
    if k == 0 {
        Seq::empty()
    } else {
        spec_node_lines(ns, (k - 1) as nat) + "\n"@ + spec_dot_node(ns[k - 1])
    }
}

/// The edge lines of the first `k` edges, each on its own line.
pub open spec fn spec_edge_lines(es: Seq<EdgeV>, k: nat) -> Seq<char>
    decreases k,
{
    if k == 0 {
        Seq::empty()
    } else {
        spec_edge_lines(es, (k - 1) as nat) + "\n"@ + spec_dot_edge(es[k - 1])
    }
}

/// The whole graph description: header, node lines, edge lines, footer.
pub open spec fn spec_graph_text(ns: Seq<NodeV>, es: Seq<EdgeV>) -> Seq<char> {
    "digraph G {"@ + spec_node_lines(ns, ns.len()) + spec_edge_lines(es, es.len()) + "\n}"@
}

/// Render a plan as a graph description: one line per node, then one per
/// edge, in the given order.
pub fn write_graph(nodes: &Vec<Node>, edges: &Vec<Edge>) -> (r: String)
    requires
        nodes_rates_wf(nodes@),
        edges_rates_wf(edges@),
    ensures
        r@ == spec_graph_text(
            crate::resolve::nodes_view(nodes@),
            crate::resolve::edges_view(edges@),
        ),
{
    let ghost nv = crate::resolve::nodes_view(nodes@);
    let ghost ev = crate::resolve::edges_view(edges@);
    let mut s = String::from_str("digraph G {");
    let n = nodes.len();
    let mut i: usize = 0;
    while i < n
        invariant
            0 <= i <= n == nodes@.len(),
            nv == crate::resolve::nodes_view(nodes@),
            nodes_rates_wf(nodes@),
            s@ == "digraph G {"@ + spec_node_lines(nv, i as nat),
        decreases n - i,
    {
        s.append("\n");
        let line = to_dot_node(&nodes[i]);
        s.append(line.as_str());
        proof {
            assert(s@ =~= "digraph G {"@ + spec_node_lines(nv, (i + 1) as nat));
        }
        i = i + 1;
    }
    let m = edges.len();
    let mut j: usize = 0;
    while j < m
        invariant
            0 <= j <= m == edges@.len(),
            nv == crate::resolve::nodes_view(nodes@),
            ev == crate::resolve::edges_view(edges@),
            nodes_rates_wf(nodes@),
            edges_rates_wf(edges@),
            n == nodes@.len(),
            s@ == "digraph G {"@ + spec_node_lines(nv, nodes@.len() as nat) + spec_edge_lines(
                ev,
                j as nat,
            ),
        decreases m - j,
    {
        s.append("\n");
        let line = to_dot_edge(&edges[j]);
        s.append(line.as_str());
        proof {
            assert(s@ =~= "digraph G {"@ + spec_node_lines(nv, nodes@.len() as nat)
                + spec_edge_lines(ev, (j + 1) as nat));
        }
        j = j + 1;
    }
    s.append("\n}");
    proof {
        assert(s@ =~= spec_graph_text(nv, ev));
    }
    s
}

/// The values of a cluster list: each a name and its member identifiers.
pub open spec fn clusters_view(s: Seq<(String, Vec<String>)>) -> Seq<(Seq<char>, Seq<Seq<char>>)> {
    Seq::new(s.len(), |i: int| (s[i].0@, Seq::new(s[i].1@.len(), |j: int| s[i].1@[j]@)))
}

/// Index of the first node with identifier `id` not yet placed, or the
/// length if every such node is placed already.
pub open spec fn nu_index(nodes: Seq<NodeV>, used: Seq<bool>, id: Seq<char>) -> int
    recommends
        used.len() == nodes.len(),
    decreases nodes.len(),
{
    if nodes.len() == 0 {
        0
    } else if nodes[0].id == id && !used[0] {
        0
    } else {
        1 + nu_index(nodes.skip(1), used.skip(1), id)
    }
}

pub proof fn lemma_nu_index(nodes: Seq<NodeV>, used: Seq<bool>, id: Seq<char>)
    requires
        used.len() == nodes.len(),
    ensures
        0 <= nu_index(nodes, used, id) <= nodes.len(),
        forall|i: int|
            0 <= i < nu_index(nodes, used, id) ==> !(nodes[i].id == id && !used[i]),
        nu_index(nodes, used, id) < nodes.len() ==> nodes[nu_index(nodes, used, id)].id == id
            && !used[nu_index(nodes, used, id)],
    decreases nodes.len(),
{
    if nodes.len() > 0 && !(nodes[0].id == id && !used[0]) {
        lemma_nu_index(nodes.skip(1), used.skip(1), id);
        assert forall|i: int|
            0 <= i < nu_index(nodes, used, id) implies !(nodes[i].id == id && !used[i]) by {
            if i > 0 {
                assert(nodes[i] == nodes.skip(1)[i - 1] && used[i] == used.skip(1)[i - 1]);
            }
        }
        if nu_index(nodes, used, id) < nodes.len() {
            let k = nu_index(nodes.skip(1), used.skip(1), id);
            assert(nodes[k + 1] == nodes.skip(1)[k] && used[k + 1] == used.skip(1)[k]);
        }
    }
}

pub proof fn lemma_nu_index_unique(nodes: Seq<NodeV>, used: Seq<bool>, id: Seq<char>, k: int)
    requires
        used.len() == nodes.len(),
        0 <= k <= nodes.len(),
        forall|i: int| 0 <= i < k ==> !(nodes[i].id == id && !used[i]),
        k < nodes.len() ==> nodes[k].id == id && !used[k],
    ensures
        nu_index(nodes, used, id) == k,
    decreases nodes.len(),
{
    if nodes.len() > 0 && !(nodes[0].id == id && !used[0]) {
        assert forall|i: int|
            0 <= i < k - 1 implies !(nodes.skip(1)[i].id == id && !used.skip(1)[i]) by {
            assert(nodes.skip(1)[i] == nodes[i + 1] && used.skip(1)[i] == used[i + 1]);
        }
        if k - 1 < nodes.skip(1).len() {
            assert(nodes.skip(1)[k - 1] == nodes[k] && used.skip(1)[k - 1] == used[k]);
        }
        lemma_nu_index_unique(nodes.skip(1), used.skip(1), id, k - 1);
    }
}

/// The lines for the first `j` members of one cluster, and the placement
/// flags afterwards: each member pulls in the first unplaced node with its
/// identifier, if one is left.
pub open spec fn spec_member_lines(
    nodes: Seq<NodeV>,
    used: Seq<bool>,
    ids: Seq<Seq<char>>,
    j: nat,
) -> (Seq<char>, Seq<bool>)
    decreases j,
{
    if j == 0 {
        (Seq::empty(), used)
    } else {
        let prev = spec_member_lines(nodes, used, ids, (j - 1) as nat);
        let k = nu_index(nodes, prev.1, ids[j - 1]);
        if k == nodes.len() {
            prev
        } else {
            (prev.0 + "\n"@ + spec_dot_node(nodes[k]), prev.1.update(k, true))
        }
    }
}

/// Member placement keeps one flag per node.
pub proof fn lemma_member_lines_len(
    nodes: Seq<NodeV>,
    used: Seq<bool>,
    ids: Seq<Seq<char>>,
    j: nat,
)
    requires
        used.len() == nodes.len(),
    ensures
        spec_member_lines(nodes, used, ids, j).1.len() == nodes.len(),
    decreases j,
{
    if j > 0 {
        lemma_member_lines_len(nodes, used, ids, (j - 1) as nat);
        lemma_nu_index(nodes, spec_member_lines(nodes, used, ids, (j - 1) as nat).1, ids[j - 1]);
    }
}

/// The text of the first `k` cluster sections, and the placement flags
/// afterwards.
pub open spec fn spec_cluster_sections(
    nodes: Seq<NodeV>,
    used: Seq<bool>,
    clusters: Seq<(Seq<char>, Seq<Seq<char>>)>,
    k: nat,
) -> (Seq<char>, Seq<bool>)
    decreases k,
{
    if k == 0 {
        (Seq::empty(), used)
    } else {
        let prev = spec_cluster_sections(nodes, used, clusters, (k - 1) as nat);
        let m = spec_member_lines(nodes, prev.1, clusters[k - 1].1, clusters[k - 1].1.len());
        (
            prev.0 + "\nsubgraph cluster_"@ + clusters[k - 1].0 + " {"@ + "\n  color=\"white\""@
                + m.0 + "\n}"@,
            m.1,
        )
    }
}

/// Cluster sections keep one flag per node.
pub proof fn lemma_cluster_sections_len(
    nodes: Seq<NodeV>,
    used: Seq<bool>,
    clusters: Seq<(Seq<char>, Seq<Seq<char>>)>,
    k: nat,
)
    requires
        used.len() == nodes.len(),
    ensures
        spec_cluster_sections(nodes, used, clusters, k).1.len() == nodes.len(),
    decreases k,
{
    if k > 0 {
        lemma_cluster_sections_len(nodes, used, clusters, (k - 1) as nat);
        lemma_member_lines_len(
            nodes,
            spec_cluster_sections(nodes, used, clusters, (k - 1) as nat).1,
            clusters[k - 1].1,
            clusters[k - 1].1.len(),
        );
    }
}

/// The lines of the first `k` nodes that no cluster placed.
pub open spec fn spec_leftover_lines(nodes: Seq<NodeV>, used: Seq<bool>, k: nat) -> Seq<char>
    decreases k,
{
    if k == 0 {
        Seq::empty()
    } else {
        spec_leftover_lines(nodes, used, (k - 1) as nat) + (if used[k - 1] {
            Seq::<char>::empty()
        } else {
            "\n"@ + spec_dot_node(nodes[k - 1])
        })
    }
}

/// The whole clustered graph description: header, one section per cluster
/// holding its members, the unclustered nodes, the edges, footer.
pub open spec fn spec_clustered_graph_text(
    ns: Seq<NodeV>,
    es: Seq<EdgeV>,
    cs: Seq<(Seq<char>, Seq<Seq<char>>)>,
) -> Seq<char> {
    let init = Seq::new(ns.len(), |i: int| false);
    let secs = spec_cluster_sections(ns, init, cs, cs.len());
    "digraph G {"@ + secs.0 + spec_leftover_lines(ns, secs.1, ns.len()) + spec_edge_lines(
        es,
        es.len(),
    ) + "\n}"@
}

/// The first unplaced node with identifier `id`, if any.
fn find_unused(nodes: &Vec<Node>, used: &Vec<bool>, id: &str) -> (r: Option<usize>)
    requires
        used@.len() == nodes@.len(),
    ensures
        match r {
            Some(k) => k < nodes@.len() && nu_index(
                crate::resolve::nodes_view(nodes@),
                used@,
                id@,
            ) == k as int,
            None => nu_index(crate::resolve::nodes_view(nodes@), used@, id@) == nodes@.len(),
        },
{
    let ghost nv = crate::resolve::nodes_view(nodes@);
    let n = nodes.len();
    let mut j: usize = 0;
    while j < n
        invariant
            0 <= j <= n == nodes@.len(),
            used@.len() == nodes@.len(),
            nv == crate::resolve::nodes_view(nodes@),
            forall|i: int| 0 <= i < j ==> !(nv[i].id == id@ && !used@[i]),
        decreases n - j,
    {
        if !used[j] && crate::text::str_eq(nodes[j].id.as_str(), id) {
            proof {
                lemma_nu_index_unique(nv, used@, id@, j as int);
            }
            return Some(j);
        }
        j = j + 1;
    }
    proof {
        lemma_nu_index_unique(nv, used@, id@, n as int);
    }
    None
}

/// Render a plan as a graph description with display clusters: each cluster
/// becomes a sub-graph holding the first unplaced node of each listed
/// identifier; the remaining nodes and all edges follow.
pub fn write_graph_with_clusters(
    nodes: &Vec<Node>,
    edges: &Vec<Edge>,
    clusters: &Vec<(String, Vec<String>)>,
) -> (r: String)
    requires
        nodes_rates_wf(nodes@),
        edges_rates_wf(edges@),
    ensures
        r@ == spec_clustered_graph_text(
            crate::resolve::nodes_view(nodes@),
            crate::resolve::edges_view(edges@),
            clusters_view(clusters@),
        ),
{
    let ghost nv = crate::resolve::nodes_view(nodes@);
    let ghost ev = crate::resolve::edges_view(edges@);
    let ghost cv = clusters_view(clusters@);
    let ghost init = Seq::new(nv.len(), |i: int| false);
    let n = nodes.len();
    let mut used: Vec<bool> = Vec::new();
    let mut t: usize = 0;
    while t < n
        invariant
            0 <= t <= n,
            used@.len() == t,
            forall|i: int| 0 <= i < t ==> !used@[i],
        decreases n - t,
    {
        used.push(false);
        t = t + 1;
    }
    proof {
        assert(used@ =~= init);
    }
    let mut s = String::from_str("digraph G {");
    let cn = clusters.len();
    let mut k: usize = 0;
    while k < cn
        invariant
            0 <= k <= cn == clusters@.len(),
            n == nodes@.len(),
            nv == crate::resolve::nodes_view(nodes@),
            cv == clusters_view(clusters@),
            init == Seq::new(nv.len(), |i: int| false),
            nodes_rates_wf(nodes@),
            used@.len() == n,
            (s@, used@) == {
                let secs = spec_cluster_sections(nv, init, cv, k as nat);
                ("digraph G {"@ + secs.0, secs.1)
            },
        decreases cn - k,
    {
        let ghost used_at_entry = used@;
        s.append("\nsubgraph cluster_");
        s.append(clusters[k].0.as_str());
        s.append(" {");
        s.append("\n  color=\"white\"");
        let m = clusters[k].1.len();
        let mut j: usize = 0;
        while j < m
            invariant
                0 <= j <= m == clusters@[k as int].1@.len(),
                0 <= k < cn == clusters@.len(),
                n == nodes@.len(),
                nv == crate::resolve::nodes_view(nodes@),
                cv == clusters_view(clusters@),
                nodes_rates_wf(nodes@),
                used@.len() == n,
                used_at_entry.len() == n,
                (s@, used@) == {
                    let m2 = spec_member_lines(nv, used_at_entry, cv[k as int].1, j as nat);
                    (
                        "digraph G {"@ + spec_cluster_sections(nv, init, cv, k as nat).0
                            + "\nsubgraph cluster_"@ + cv[k as int].0 + " {"@
                            + "\n  color=\"white\""@ + m2.0,
                        m2.1,
                    )
                },
            decreases m - j,
        {
            proof {
                assert(cv[k as int].1[j as int] == clusters@[k as int].1@[j as int]@);
            }
            match find_unused(nodes, &used, clusters[k].1[j].as_str()) {
                Some(i) => {
                    used[i] = true;
                    s.append("\n");
                    let line = to_dot_node(&nodes[i]);
                    s.append(line.as_str());
                },
                None => {},
            }
            proof {
                let m2 = spec_member_lines(nv, used_at_entry, cv[k as int].1, (j + 1) as nat);
                assert(s@ =~= "digraph G {"@ + spec_cluster_sections(nv, init, cv, k as nat).0
                    + "\nsubgraph cluster_"@ + cv[k as int].0 + " {"@ + "\n  color=\"white\""@
                    + m2.0);
            }
            j = j + 1;
        }
        s.append("\n}");
        proof {
            let secs = spec_cluster_sections(nv, init, cv, (k + 1) as nat);
            assert(cv[k as int].1.len() == clusters@[k as int].1@.len());
            assert(s@ =~= "digraph G {"@ + secs.0);
        }
        k = k + 1;
    }
    let ghost placed = used@;
    let mut p: usize = 0;
    while p < n
        invariant
            0 <= p <= n == nodes@.len(),
            nv == crate::resolve::nodes_view(nodes@),
            ev == crate::resolve::edges_view(edges@),
            cv == clusters_view(clusters@),
            init == Seq::new(nv.len(), |i: int| false),
            nodes_rates_wf(nodes@),
            edges_rates_wf(edges@),
            used@ == placed,
            used@.len() == n,
            placed == spec_cluster_sections(nv, init, cv, cv.len()).1,
            s@ == "digraph G {"@ + spec_cluster_sections(nv, init, cv, cv.len()).0
                + spec_leftover_lines(nv, placed, p as nat),
        decreases n - p,
    {
        if !used[p] {
            s.append("\n");
            let line = to_dot_node(&nodes[p]);
            s.append(line.as_str());
        }
        proof {
            assert(s@ =~= "digraph G {"@ + spec_cluster_sections(nv, init, cv, cv.len()).0
                + spec_leftover_lines(nv, placed, (p + 1) as nat));
        }
        p = p + 1;
    }
    let ghost pre = s@;
    let em = edges.len();
    let mut q: usize = 0;
    while q < em
        invariant
            0 <= q <= em == edges@.len(),
            ev == crate::resolve::edges_view(edges@),
            edges_rates_wf(edges@),
            s@ == pre + spec_edge_lines(ev, q as nat),
        decreases em - q,
    {
        s.append("\n");
        let line = to_dot_edge(&edges[q]);
        s.append(line.as_str());
        proof {
            assert(s@ =~= pre + spec_edge_lines(ev, (q + 1) as nat));
        }
        q = q + 1;
    }
    s.append("\n}");
    proof {
        assert(s@ =~= spec_clustered_graph_text(nv, ev, cv));
    }
    s
}

} // verus!
