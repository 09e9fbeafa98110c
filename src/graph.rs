//! The link graph: one node per distinct note name, one directed edge per
//! distinct (note, referenced name) pair. The graph itself is petgraph's
//! `Graph`; the library reads and changes it only through the trusted
//! items below.

use vstd::prelude::*;
use petgraph::graph::{EdgeIndex, Graph, NodeIndex};
use petgraph::Directed;
use vstd::string::StrSliceExecFns;
use crate::links::{extract_links, links};

verus! {

#[verifier::external_type_specification]
#[verifier::external_body]
#[verifier::reject_recursive_types(N)]
#[verifier::reject_recursive_types(E)]
#[verifier::reject_recursive_types(Ty)]
#[verifier::reject_recursive_types(Ix)]
pub struct ExGraph<N, E, Ty, Ix>(Graph<N, E, Ty, Ix>);

#[verifier::external_type_specification]
#[verifier::external_body]
pub struct ExDirected(Directed);

/// Directed graph whose node weights are note names.
pub type BackLinksGraph = Graph<String, (), Directed>;

/// The node weights of a graph, by node index.
pub uninterp spec fn node_labels(g: BackLinksGraph) -> Seq<Seq<char>>;

/// The (source, target) node indices of a graph's edges, by edge index.
pub uninterp spec fn edge_pairs(g: BackLinksGraph) -> Seq<(nat, nat)>;

/// Largest number of nodes, or of edges, that a graph with `u32` indices holds.
pub const MAX_ITEMS: u64 = 4294967295;

/// Relies on petgraph's `Graph::new`: a graph with no nodes and no edges.
#[verifier::external_body]
pub(crate) fn new_graph() -> (g: BackLinksGraph)
    ensures
        node_labels(g) == Seq::<Seq<char>>::empty(),
        edge_pairs(g) == Seq::<(nat, nat)>::empty(),
{
    Graph::new()
}

/// Relies on petgraph's `Graph::node_count`: the number of node weights.
#[verifier::external_body]
pub(crate) fn node_count(g: &BackLinksGraph) -> (r: usize)
    ensures
        r == node_labels(*g).len(),
{
    g.node_count()
}

/// Relies on petgraph's `Graph::edge_count`: the number of edges.
#[verifier::external_body]
pub(crate) fn edge_count(g: &BackLinksGraph) -> (r: usize)
    ensures
        r == edge_pairs(*g).len(),
{
    g.edge_count()
}

/// Relies on petgraph's `Graph::add_node`: pushes the weight and returns its
/// index; it panics once the `u32` index space is used up.
#[verifier::external_body]
fn add_node(g: &mut BackLinksGraph, label: String) -> (r: usize)
    requires
        node_labels(*old(g)).len() < MAX_ITEMS,
    ensures
        node_labels(*final(g)) == node_labels(*old(g)).push(label@),
        edge_pairs(*final(g)) == edge_pairs(*old(g)),
        r == node_labels(*old(g)).len(),
{
    g.add_node(label).index()
}

/// Relies on petgraph's `Graph::update_edge`: when an edge from `a` to `b`
/// exists it is kept (its `()` weight rewritten), else one is pushed. It
/// panics on a missing node or once the `u32` index space is used up.
#[verifier::external_body]
fn update_edge(g: &mut BackLinksGraph, a: usize, b: usize)
    requires
        a < node_labels(*old(g)).len(),
        b < node_labels(*old(g)).len(),
        edge_pairs(*old(g)).len() < MAX_ITEMS,
    ensures
        node_labels(*final(g)) == node_labels(*old(g)),
        edge_pairs(*old(g)).contains((a as nat, b as nat)) ==> edge_pairs(*final(g))
            == edge_pairs(*old(g)),
        !edge_pairs(*old(g)).contains((a as nat, b as nat)) ==> edge_pairs(*final(g))
            == edge_pairs(*old(g)).push((a as nat, b as nat)),
{
    g.update_edge(NodeIndex::new(a), NodeIndex::new(b), ());
}

/// Relies on petgraph's `Index<NodeIndex>` for `Graph`: the weight of node `i`.
#[verifier::external_body]
pub(crate) fn node_label(g: &BackLinksGraph, i: usize) -> (r: &String)
    requires
        i < node_labels(*g).len(),
    ensures
        r@ == node_labels(*g)[i as int],
{
    &g[NodeIndex::new(i)]
}

/// Relies on petgraph's `Graph::edge_endpoints`: source and target of edge `i`.
#[verifier::external_body]
pub(crate) fn edge_endpoints(g: &BackLinksGraph, i: usize) -> (r: (usize, usize))
    requires
        i < edge_pairs(*g).len(),
    ensures
        (r.0 as nat, r.1 as nat) == edge_pairs(*g)[i as int],
{
    let (a, b) = g.edge_endpoints(EdgeIndex::new(i)).unwrap();
    (a.index(), b.index())
}

/// A graph is well formed when node names are distinct, edges are distinct
/// and every edge joins two existing nodes.
pub open spec fn wf(g: BackLinksGraph) -> bool {
    &&& node_labels(g).no_duplicates()
    &&& edge_pairs(g).no_duplicates()
    &&& forall|k: int|
        0 <= k < edge_pairs(g).len() ==> (#[trigger] edge_pairs(g)[k]).0 < node_labels(g).len()
            && edge_pairs(g)[k].1 < node_labels(g).len()
}

/// Edge `k` of `g`, as the names of its two ends.
pub open spec fn edge_label(g: BackLinksGraph, k: int) -> (Seq<char>, Seq<char>) {
    (node_labels(g)[edge_pairs(g)[k].0 as int], node_labels(g)[edge_pairs(g)[k].1 as int])
}

/// The set of node names of `g`.
pub open spec fn label_set(g: BackLinksGraph) -> Set<Seq<char>> {
    node_labels(g).to_set()
}

/// The set of edges of `g`, as pairs of names.
pub open spec fn edge_set(g: BackLinksGraph) -> Set<(Seq<char>, Seq<char>)> {
    Set::new(
        |p: (Seq<char>, Seq<char>)| exists|k: int| 0 <= k < edge_pairs(g).len() && p == edge_label(g, k),
    )
}

/// The edges from the note `name` to each name of `ls`.
pub open spec fn edges_from(name: Seq<char>, ls: Seq<Seq<char>>) -> Set<(Seq<char>, Seq<char>)> {
    Set::new(|p: (Seq<char>, Seq<char>)| p.0 == name && ls.contains(p.1))
}

/// An empty graph.
pub fn empty_graph() -> (g: BackLinksGraph)
    ensures
        wf(g),
        node_labels(g).len() == 0,
        edge_pairs(g).len() == 0,
        label_set(g) == Set::<Seq<char>>::empty(),
        edge_set(g) == Set::<(Seq<char>, Seq<char>)>::empty(),
{
    let g = new_graph();
    assert(label_set(g) =~= Set::<Seq<char>>::empty());
    assert(edge_set(g) =~= Set::<(Seq<char>, Seq<char>)>::empty());
    g
}

/// Index of the node named `label`, if there is one.
pub fn find_node(g: &BackLinksGraph, label: &String) -> (r: Option<usize>)
    ensures
        r matches Some(i) ==> i < node_labels(*g).len() && node_labels(*g)[i as int] == label@,
        r is None ==> !node_labels(*g).contains(label@),
{
    let n = node_count(g);
    let mut i: usize = 0;
    while i < n
        invariant
            n == node_labels(*g).len(),
            i <= n,
            forall|k: int| 0 <= k < i ==> node_labels(*g)[k] != label@,
        decreases n - i,
    {
        if *node_label(g, i) == *label {
            return Some(i);
        }
        i = i + 1;
    }
    None
}

/// Index of the node named `label`, added first when there is none.
pub fn node_for(g: &mut BackLinksGraph, label: String) -> (r: usize)
    requires
        wf(*old(g)),
        node_labels(*old(g)).len() < MAX_ITEMS,
    ensures
        wf(*final(g)),
        r < node_labels(*final(g)).len(),
        node_labels(*final(g))[r as int] == label@,
        node_labels(*old(g)).contains(label@) ==> node_labels(*final(g)) == node_labels(*old(g)),
        !node_labels(*old(g)).contains(label@) ==> node_labels(*final(g)) == node_labels(
            *old(g),
        ).push(label@),
        edge_pairs(*final(g)) == edge_pairs(*old(g)),
        label_set(*final(g)) == label_set(*old(g)).insert(label@),
        edge_set(*final(g)) == edge_set(*old(g)),
{
    match find_node(g, &label) {
        Some(i) => {
            proof {
                assert(label_set(*g) =~= label_set(*g).insert(label@));
            }
            i
        },
        None => {
            let ghost g0 = *g;
            let i = add_node(g, label);
            proof {
                let ls = node_labels(*g);
                assert(ls[i as int] == label@);
                assert forall|k: int| 0 <= k < edge_pairs(*g).len() implies edge_label(*g, k)
                    == edge_label(g0, k) by {
                    assert(edge_pairs(g0)[k] == edge_pairs(*g)[k]);
                }
                assert forall|p: (Seq<char>, Seq<char>)| edge_set(*g).contains(p) <==> edge_set(
                    g0,
                ).contains(p) by {
                    if edge_set(*g).contains(p) {
                        let k = choose|k: int| 0 <= k < edge_pairs(*g).len() && p == edge_label(*g, k);
                        assert(p == edge_label(g0, k));
                    }
                    if edge_set(g0).contains(p) {
                        let k = choose|k: int| 0 <= k < edge_pairs(g0).len() && p == edge_label(g0, k);
                        assert(p == edge_label(*g, k));
                    }
                }
                assert(edge_set(*g) =~= edge_set(g0));
                assert(label_set(*g) =~= label_set(g0).insert(label@)) by {
                    assert forall|x: Seq<char>| label_set(g0).insert(label@).contains(x) implies ls.contains(x) by {
                        if x == label@ {
                            assert(ls[i as int] == x);
                        } else {
                            let j = choose|j: int| 0 <= j < node_labels(g0).len() && node_labels(g0)[j] == x;
                            assert(ls[j] == x);
                        }
                    }
                    assert forall|x: Seq<char>| ls.contains(x) implies label_set(g0).insert(label@).contains(x) by {
                        let j = choose|j: int| 0 <= j < ls.len() && ls[j] == x;
                        if j < node_labels(g0).len() {
                            assert(node_labels(g0)[j] == x);
                        }
                    }
                }
                assert forall|a: int, b: int| 0 <= a < ls.len() && 0 <= b < ls.len() && a != b implies ls[a] != ls[b] by {
                    if a < i && b < i {
                        assert(node_labels(g0)[a] == ls[a]);
                        assert(node_labels(g0)[b] == ls[b]);
                    } else if a == i {
                        assert(node_labels(g0)[b] == ls[b]);
                    } else {
                        assert(node_labels(g0)[a] == ls[a]);
                    }
                }
            }
            i
        },
    }
}

/// A note: its name (the file name without extension) and its text.
pub struct Note {
    pub name: String,
    pub text: String,
}

proof fn lemma_take_one_more<A>(s: Seq<A>, j: int)
    requires
        0 <= j < s.len(),
    ensures
        forall|x: A| #[trigger] s.take(j + 1).contains(x) <==> (s.take(j).contains(x) || x == s[j]),
{
    assert forall|x: A| #[trigger] s.take(j + 1).contains(x) <==> (s.take(j).contains(x) || x
        == s[j]) by {
        if s.take(j + 1).contains(x) {
            let t = s.take(j + 1);
            let k = choose|k: int| 0 <= k < t.len() && t[k] == x;
            if k < j {
                assert(s.take(j)[k] == x);
            }
        }
        if s.take(j).contains(x) {
            let t = s.take(j);
            let k = choose|k: int| 0 <= k < t.len() && t[k] == x;
            assert(s.take(j + 1)[k] == x);
        }
        if x == s[j] {
            assert(s.take(j + 1)[j] == x);
        }
    }
}

/// Adds an edge from node `a` to node `b`, unless there is one already.
pub fn link_nodes(g: &mut BackLinksGraph, a: usize, b: usize)
    requires
        wf(*old(g)),
        a < node_labels(*old(g)).len(),
        b < node_labels(*old(g)).len(),
        edge_pairs(*old(g)).len() < MAX_ITEMS,
    ensures
        wf(*final(g)),
        node_labels(*final(g)) == node_labels(*old(g)),
        edge_pairs(*final(g)).len() <= edge_pairs(*old(g)).len() + 1,
        edge_set(*final(g)) == edge_set(*old(g)).insert(
            (node_labels(*old(g))[a as int], node_labels(*old(g))[b as int]),
        ),
{
    let ghost g0 = *g;
    let ghost pair = (node_labels(g0)[a as int], node_labels(g0)[b as int]);
    update_edge(g, a, b);
    proof {
        let es = edge_pairs(*g);
        if edge_pairs(g0).contains((a as nat, b as nat)) {
            let k = choose|k: int| 0 <= k < edge_pairs(g0).len() && edge_pairs(g0)[k] == (a as nat, b as nat);
            assert(edge_label(g0, k) == pair);
            assert(edge_set(g0).contains(pair));
            assert forall|p: (Seq<char>, Seq<char>)| edge_set(*g).contains(p) <==> edge_set(
                g0,
            ).contains(p) by {
                if edge_set(*g).contains(p) {
                    let k = choose|k: int| 0 <= k < es.len() && p == edge_label(*g, k);
                    assert(p == edge_label(g0, k));
                }
                if edge_set(g0).contains(p) {
                    let k = choose|k: int| 0 <= k < edge_pairs(g0).len() && p == edge_label(g0, k);
                    assert(p == edge_label(*g, k));
                }
            }
            assert(edge_set(*g) =~= edge_set(g0).insert(pair));
        } else {
            let n = edge_pairs(g0).len() as int;
            assert(edge_label(*g, n) == pair);
            assert forall|p: (Seq<char>, Seq<char>)| edge_set(*g).contains(p) <==> edge_set(
                g0,
            ).insert(pair).contains(p) by {
                if edge_set(*g).contains(p) {
                    let k = choose|k: int| 0 <= k < es.len() && p == edge_label(*g, k);
                    if k < n {
                        assert(p == edge_label(g0, k));
                    }
                }
                if edge_set(g0).contains(p) {
                    let k = choose|k: int| 0 <= k < edge_pairs(g0).len() && p == edge_label(g0, k);
                    assert(p == edge_label(*g, k));
                }
            }
            assert(edge_set(*g) =~= edge_set(g0).insert(pair));
            assert forall|x: int, y: int| 0 <= x < es.len() && 0 <= y < es.len() && x != y implies es[x]
                != es[y] by {
                if x < n && y < n {
                    assert(edge_pairs(g0)[x] == es[x]);
                    assert(edge_pairs(g0)[y] == es[y]);
                } else if x == n {
                    assert(edge_pairs(g0)[y] == es[y]);
                } else {
                    assert(edge_pairs(g0)[x] == es[x]);
                }
            }
            assert forall|k: int| 0 <= k < es.len() implies (#[trigger] es[k]).0 < node_labels(
                *g,
            ).len() && es[k].1 < node_labels(*g).len() by {
                if k < n {
                    assert(edge_pairs(g0)[k] == es[k]);
                }
            }
        }
    }
}

/// Adds the note `name` with text `text`: a node for the note, a node for
/// each name that its text links to, and an edge from the note to each of
/// them. Names and edges already in the graph are not added twice.
pub fn add_note(g: &mut BackLinksGraph, name: &str, text: &str)
    requires
        wf(*old(g)),
        node_labels(*old(g)).len() + 1 + links(text@).len() < MAX_ITEMS,
        edge_pairs(*old(g)).len() + links(text@).len() < MAX_ITEMS,
    ensures
        wf(*final(g)),
        label_set(*final(g)) == label_set(*old(g)).insert(name@).union(links(text@).to_set()),
        edge_set(*final(g)) == edge_set(*old(g)).union(edges_from(name@, links(text@))),
        node_labels(*final(g)).len() <= node_labels(*old(g)).len() + 1 + links(text@).len(),
        edge_pairs(*final(g)).len() <= edge_pairs(*old(g)).len() + links(text@).len(),
{
    let ghost g0 = *g;
    let src = node_for(g, name.to_owned());
    let ls = extract_links(text);
    let ghost lv = links(text@);
    assert(ls@.len() == lv.len());
    assert(lv.take(0) =~= Seq::<Seq<char>>::empty());
    assert(label_set(*g).union(lv.take(0).to_set()) =~= label_set(*g));
    assert(edge_set(*g).union(edges_from(name@, lv.take(0))) =~= edge_set(*g));
    let ghost g1 = *g;
    let mut j: usize = 0;
    while j < ls.len()
        invariant
            wf(*g),
            ls@.map_values(|l: String| l@) == lv,
            j <= ls.len(),
            src < node_labels(*g).len(),
            node_labels(*g)[src as int] == name@,
            label_set(g1) == label_set(g0).insert(name@),
            edge_set(g1) == edge_set(g0),
            label_set(*g) == label_set(g1).union(lv.take(j as int).to_set()),
            edge_set(*g) == edge_set(g1).union(edges_from(name@, lv.take(j as int))),
            node_labels(*g).len() <= node_labels(g0).len() + 1 + j,
            edge_pairs(*g).len() <= edge_pairs(g0).len() + j,
            node_labels(g0).len() + 1 + lv.len() < MAX_ITEMS,
            edge_pairs(g0).len() + lv.len() < MAX_ITEMS,
        decreases ls.len() - j,
    {
        let ghost before = *g;
        assert(ls@[j as int]@ == lv[j as int]);
        let dst = node_for(g, ls[j].clone());
        let ghost mid = *g;
        link_nodes(g, src, dst);
        proof {
            lemma_take_one_more(lv, j as int);
            assert(lv.take(j + 1).to_set() =~= lv.take(j as int).to_set().insert(lv[j as int]));
            assert(label_set(*g) =~= label_set(g1).union(lv.take(j + 1).to_set()));
            assert(edges_from(name@, lv.take(j + 1)) =~= edges_from(name@, lv.take(j as int)).insert(
                (name@, lv[j as int]),
            ));
            assert(edge_set(*g) =~= edge_set(g1).union(edges_from(name@, lv.take(j + 1))));
        }
        j = j + 1;
    }
    proof {
        assert(lv.take(lv.len() as int) =~= lv);
        assert(label_set(*g) =~= label_set(g0).insert(name@).union(lv.to_set()));
        assert(edge_set(*g) =~= edge_set(g0).union(edges_from(name@, lv)));
    }
}

/// Every name in `notes`: the notes' own names and every name their texts link to.
pub open spec fn notes_labels(notes: Seq<Note>) -> Set<Seq<char>> {
    Set::new(
        |l: Seq<char>|
            exists|i: int|
                0 <= i < notes.len() && (notes[i].name@ == l || links(notes[i].text@).contains(l)),
    )
}

/// Every (note, linked name) pair in `notes`.
pub open spec fn notes_edges(notes: Seq<Note>) -> Set<(Seq<char>, Seq<char>)> {
    Set::new(
        |p: (Seq<char>, Seq<char>)|
            exists|i: int|
                0 <= i < notes.len() && p.0 == notes[i].name@ && links(notes[i].text@).contains(p.1),
    )
}

/// The number of names that `notes` mention, repeats counted: one per note
/// and one per link. It bounds both the nodes and the edges of their graph.
pub open spec fn notes_size(notes: Seq<Note>) -> nat
    decreases notes.len(),
{
    if notes.len() == 0 {
        0
    } else {
        notes_size(notes.drop_last()) + 1 + links(notes.last().text@).len()
    }
}

proof fn lemma_notes_size_prefix(notes: Seq<Note>, j: int)
    requires
        0 <= j < notes.len(),
    ensures
        notes_size(notes.take(j)) + 1 + links(notes[j].text@).len() <= notes_size(notes),
    decreases notes.len(),
{
    if j < notes.len() - 1 {
        lemma_notes_size_prefix(notes.drop_last(), j);
        assert(notes.drop_last().take(j) =~= notes.take(j));
    } else {
        assert(notes.drop_last() =~= notes.take(j));
    }
}

/// The graph of `notes`: one node per distinct name (of a note, or linked to
/// from one), one edge per distinct (note, linked name) pair.
pub fn build_graph(notes: &Vec<Note>) -> (g: BackLinksGraph)
    requires
        notes_size(notes@) < MAX_ITEMS,
    ensures
        wf(g),
        label_set(g) == notes_labels(notes@),
        edge_set(g) == notes_edges(notes@),
{
    let mut g = empty_graph();
    let ghost ns = notes@;
    assert(notes_labels(ns.take(0)) =~= Set::<Seq<char>>::empty());
    assert(notes_edges(ns.take(0)) =~= Set::<(Seq<char>, Seq<char>)>::empty());
    let mut j: usize = 0;
    while j < notes.len()
        invariant
            ns == notes@,
            j <= ns.len(),
            wf(g),
            label_set(g) == notes_labels(ns.take(j as int)),
            edge_set(g) == notes_edges(ns.take(j as int)),
            node_labels(g).len() <= notes_size(ns.take(j as int)),
            edge_pairs(g).len() <= notes_size(ns.take(j as int)),
            notes_size(ns) < MAX_ITEMS,
        decreases ns.len() - j,
    {
        proof {
            lemma_notes_size_prefix(ns, j as int);
            assert(ns.take(j + 1).drop_last() =~= ns.take(j as int));
        }
        let note = &notes[j];
        add_note(&mut g, note.name.as_str(), note.text.as_str());
        proof {
            let pre = ns.take(j as int);
            let post = ns.take(j + 1);
            let n = ns[j as int];
            assert(post[j as int] == n);
            assert forall|l: Seq<char>| notes_labels(post).contains(l) <==> (notes_labels(pre).contains(l)
                || l == n.name@ || links(n.text@).contains(l)) by {
                if notes_labels(post).contains(l) {
                    let i = choose|i: int|
                        0 <= i < post.len() && (post[i].name@ == l || links(post[i].text@).contains(l));
                    if i < j {
                        assert(pre[i] == post[i]);
                    }
                }
                if notes_labels(pre).contains(l) {
                    let i = choose|i: int|
                        0 <= i < pre.len() && (pre[i].name@ == l || links(pre[i].text@).contains(l));
                    assert(pre[i] == post[i]);
                }
            }
            assert(label_set(g) =~= notes_labels(post));
            assert forall|p: (Seq<char>, Seq<char>)| notes_edges(post).contains(p) <==> (notes_edges(pre).contains(p)
                || edges_from(n.name@, links(n.text@)).contains(p)) by {
                if notes_edges(post).contains(p) {
                    let i = choose|i: int|
                        0 <= i < post.len() && p.0 == post[i].name@ && links(post[i].text@).contains(p.1);
                    if i < j {
                        assert(pre[i] == post[i]);
                    }
                }
                if notes_edges(pre).contains(p) {
                    let i = choose|i: int|
                        0 <= i < pre.len() && p.0 == pre[i].name@ && links(pre[i].text@).contains(p.1);
                    assert(pre[i] == post[i]);
                }
            }
            assert(edge_set(g) =~= notes_edges(post));
        }
        j = j + 1;
    }
    proof {
        assert(ns.take(ns.len() as int) =~= ns);
    }
    g
}

/// The graph of `notes`, or `None` when they mention too many names for
/// its `u32` node and edge indices.
pub fn build_graph_checked(notes: &Vec<Note>) -> (r: Option<BackLinksGraph>)
    ensures
        r is None <==> notes_size(notes@) >= MAX_ITEMS,
        r matches Some(g) ==> wf(g) && label_set(g) == notes_labels(notes@) && edge_set(g)
            == notes_edges(notes@),
{
    let ghost ns = notes@;
    let mut total: u64 = 0;
    let mut j: usize = 0;
    assert(ns.take(0).len() == 0);
    while j < notes.len()
        invariant
            ns == notes@,
            j <= ns.len(),
            total == notes_size(ns.take(j as int)),
            total < MAX_ITEMS,
        decreases ns.len() - j,
    {
        let count = extract_links(notes[j].text.as_str()).len();
        proof {
            lemma_notes_size_prefix(ns, j as int);
            assert(ns.take(j + 1).drop_last() =~= ns.take(j as int));
            assert(count == links(ns[j as int].text@).len());
        }
        if count as u64 >= MAX_ITEMS - 1 - total {
            return None;
        }
        total = total + 1 + count as u64;
        j = j + 1;
    }
    proof {
        assert(ns.take(ns.len() as int) =~= ns);
    }
    Some(build_graph(notes))
}

/// Whether a file extension is the one of notes: exactly `md`.
pub fn is_note_extension(ext: &str) -> (r: bool)
    ensures
        r == (ext@ == seq!['m', 'd']),
{
    if ext.unicode_len() == 2 && ext.get_char(0) == 'm' && ext.get_char(1) == 'd' {
        assert(ext@ =~= seq!['m', 'd']);
        true
    } else {
        false
    }
}

} // verus!
