//! The node/edge form of a link graph, laid out as the JSON graph document
//! that is written out: `{"graph": {"directed", "nodes", "edges"}}`.

use vstd::prelude::*;
use crate::graph::{
    edge_endpoints, edge_count, edge_label, edge_pairs, edge_set, label_set, node_count,
    node_label, node_labels, wf, BackLinksGraph,
};

verus! {

/// The document's top level.
pub struct JsonGraphContainer {
    pub graph: JsonGraph,
}

/// A directed graph as lists of nodes and edges.
pub struct JsonGraph {
    pub directed: bool,
    pub nodes: Vec<JsonNode>,
    pub edges: Vec<JsonEdge>,
}

/// A node, named by its label.
pub struct JsonNode {
    pub label: String,
}

/// An edge, with its ends given by their labels.
pub struct JsonEdge {
    pub source: String,
    pub directed: bool,
    pub target: String,
}

/// `c` lays out `g`: its nodes in node index order, its edges in edge index
/// order, each end of an edge given by its node's label, all marked directed.
pub open spec fn lays_out(g: BackLinksGraph, c: JsonGraphContainer) -> bool {
    &&& c.graph.directed
    &&& c.graph.nodes@.len() == node_labels(g).len()
    &&& c.graph.edges@.len() == edge_pairs(g).len()
    &&& forall|i: int| 0 <= i < node_labels(g).len() ==> (#[trigger] c.graph.nodes@[i]).label@ == node_labels(g)[i]
    &&& forall|k: int|
        0 <= k < edge_pairs(g).len() ==> {
            let e = #[trigger] c.graph.edges@[k];
            &&& e.directed
            &&& (e.source@, e.target@) == edge_label(g, k)
        }
}

/// The labels of the nodes of `c`.
pub open spec fn node_label_set(c: JsonGraphContainer) -> Set<Seq<char>> {
    c.graph.nodes@.map_values(|n: JsonNode| n.label@).to_set()
}

/// The (source, target) label pairs of the edges of `c`.
pub open spec fn edge_label_set(c: JsonGraphContainer) -> Set<(Seq<char>, Seq<char>)> {
    c.graph.edges@.map_values(|e: JsonEdge| (e.source@, e.target@)).to_set()
}

/// Lays out `g` as nodes and edges named by their labels.
pub fn output_graph(g: BackLinksGraph) -> (r: JsonGraphContainer)
    requires
        wf(g),
    ensures
        lays_out(g, r),
{
    let n = node_count(&g);
    let mut nodes: Vec<JsonNode> = Vec::new();
    let mut i: usize = 0;
    while i < n
        invariant
            n == node_labels(g).len(),
            i <= n,
            nodes@.len() == i,
            forall|x: int| 0 <= x < i ==> (#[trigger] nodes@[x]).label@ == node_labels(g)[x],
        decreases n - i,
    {
        nodes.push(JsonNode { label: node_label(&g, i).clone() });
        i = i + 1;
    }
    let m = edge_count(&g);
    let mut edges: Vec<JsonEdge> = Vec::new();
    let mut k: usize = 0;
    while k < m
        invariant
            wf(g),
            m == edge_pairs(g).len(),
            k <= m,
            edges@.len() == k,
            forall|x: int|
                0 <= x < k ==> {
                    let e = #[trigger] edges@[x];
                    &&& e.directed
                    &&& (e.source@, e.target@) == edge_label(g, x)
                },
        decreases m - k,
    {
        let (a, b) = edge_endpoints(&g, k);
        assert(edge_pairs(g)[k as int].0 < node_labels(g).len());
        let source = node_label(&g, a).clone();
        let target = node_label(&g, b).clone();
        edges.push(JsonEdge { source, directed: true, target });
        k = k + 1;
    }
    JsonGraphContainer { graph: JsonGraph { directed: true, nodes, edges } }
}

/// Laying out a graph keeps it: as many nodes and edges as the graph has, the
/// same set of labels, and the same set of (source, target) label pairs.
pub proof fn lemma_layout_keeps_graph(g: BackLinksGraph, c: JsonGraphContainer)
    requires
        wf(g),
        lays_out(g, c),
    ensures
        c.graph.nodes@.len() == node_labels(g).len(),
        c.graph.edges@.len() == edge_pairs(g).len(),
        node_label_set(c) == label_set(g),
        edge_label_set(c) == edge_set(g),
{
    let ls = c.graph.nodes@.map_values(|n: JsonNode| n.label@);
    assert(ls =~= node_labels(g));
    let es = c.graph.edges@.map_values(|e: JsonEdge| (e.source@, e.target@));
    assert forall|p: (Seq<char>, Seq<char>)| es.contains(p) <==> edge_set(g).contains(p) by {
        if es.contains(p) {
            let k = choose|k: int| 0 <= k < es.len() && es[k] == p;
            assert(c.graph.edges@[k].directed);
        }
        if edge_set(g).contains(p) {
            let k = choose|k: int| 0 <= k < edge_pairs(g).len() && p == edge_label(g, k);
            assert(c.graph.edges@[k].directed);
            assert(es[k] == p);
        }
    }
    assert(edge_label_set(c) =~= edge_set(g));
}

} // verus!
