use astro_obsidian::export::{output_graph, JsonGraphContainer};
use astro_obsidian::graph::{build_graph, build_graph_checked, is_note_extension, Note};

fn note(name: &str, text: &str) -> Note {
    Note { name: name.to_string(), text: text.to_string() }
}

fn labels(c: &JsonGraphContainer) -> Vec<String> {
    c.graph.nodes.iter().map(|n| n.label.clone()).collect()
}

fn pairs(c: &JsonGraphContainer) -> Vec<(String, String)> {
    c.graph.edges.iter().map(|e| (e.source.clone(), e.target.clone())).collect()
}

#[test]
fn two_notes_one_link() {
    let g = build_graph(&vec![note("A", "no links"), note("B", "see [[A]]")]);
    assert_eq!(g.node_count(), 2);
    assert_eq!(g.edge_count(), 1);
    let c = output_graph(g);
    assert_eq!(labels(&c), vec!["A".to_string(), "B".to_string()]);
    assert_eq!(pairs(&c), vec![("B".to_string(), "A".to_string())]);
}

#[test]
fn duplicate_reference_gives_one_edge() {
    let g = build_graph(&vec![note("C", "[[X]] [[X]]")]);
    assert_eq!(g.node_count(), 2);
    assert_eq!(g.edge_count(), 1);
    let c = output_graph(g);
    assert_eq!(labels(&c), vec!["C".to_string(), "X".to_string()]);
    assert_eq!(pairs(&c), vec![("C".to_string(), "X".to_string())]);
}

#[test]
fn self_reference_gives_self_edge() {
    let g = build_graph(&vec![note("D", "[[D]]")]);
    assert_eq!(g.node_count(), 1);
    assert_eq!(g.edge_count(), 1);
    let c = output_graph(g);
    assert_eq!(labels(&c), vec!["D".to_string()]);
    assert_eq!(pairs(&c), vec![("D".to_string(), "D".to_string())]);
}

#[test]
fn reference_then_note_of_same_name_share_a_node() {
    let g = build_graph(&vec![note("B", "[[A]]"), note("A", "[[B]] [[missing]]")]);
    let c = output_graph(g);
    assert_eq!(labels(&c), vec!["B".to_string(), "A".to_string(), "missing".to_string()]);
    assert_eq!(
        pairs(&c),
        vec![
            ("B".to_string(), "A".to_string()),
            ("A".to_string(), "B".to_string()),
            ("A".to_string(), "missing".to_string()),
        ]
    );
}

#[test]
fn same_edge_from_two_texts_kept_once() {
    let g = build_graph(&vec![note("A", "[[B]]"), note("A", "[[B]] [[C]]")]);
    assert_eq!(g.node_count(), 3);
    assert_eq!(g.edge_count(), 2);
}

#[test]
fn names_are_case_sensitive() {
    let g = build_graph(&vec![note("a", "[[A]]")]);
    assert_eq!(g.node_count(), 2);
}

#[test]
fn empty_link_makes_empty_node() {
    let c = output_graph(build_graph(&vec![note("E", "[[]]")]));
    assert_eq!(labels(&c), vec!["E".to_string(), "".to_string()]);
    assert_eq!(pairs(&c), vec![("E".to_string(), "".to_string())]);
}

#[test]
fn no_notes_empty_graph() {
    let c = output_graph(build_graph(&vec![]));
    assert!(c.graph.directed);
    assert!(c.graph.nodes.is_empty());
    assert!(c.graph.edges.is_empty());
}

#[test]
fn layout_counts_and_directed_marks() {
    let c = output_graph(build_graph(&vec![note("A", "[[B]] [[C]] [[B]]"), note("B", "[[C]]")]));
    assert!(c.graph.directed);
    assert_eq!(c.graph.nodes.len(), 3);
    assert_eq!(c.graph.edges.len(), 3);
    assert!(c.graph.edges.iter().all(|e| e.directed));
    let mut ls = labels(&c);
    ls.sort();
    assert_eq!(ls, vec!["A".to_string(), "B".to_string(), "C".to_string()]);
    let mut ps = pairs(&c);
    ps.sort();
    assert_eq!(
        ps,
        vec![
            ("A".to_string(), "B".to_string()),
            ("A".to_string(), "C".to_string()),
            ("B".to_string(), "C".to_string()),
        ]
    );
}

#[test]
fn note_extension_is_exactly_md() {
    assert!(is_note_extension("md"));
    assert!(!is_note_extension("txt"));
    assert!(!is_note_extension("MD"));
    assert!(!is_note_extension("mdx"));
    assert!(!is_note_extension(""));
}

#[test]
fn checked_build_matches_build() {
    let notes = vec![note("A", "no links"), note("B", "see [[A]]")];
    let g = build_graph_checked(&notes).expect("small input fits");
    let c = output_graph(g);
    assert_eq!(labels(&c), vec!["A".to_string(), "B".to_string()]);
    assert_eq!(pairs(&c), vec![("B".to_string(), "A".to_string())]);
}
