use astro_obsidian::export::{output_graph, JsonGraphContainer};
use astro_obsidian::graph::{build_graph, Note};
use serde_json::Value;
use std::collections::BTreeSet;

fn to_value(c: &JsonGraphContainer) -> Value {
    let nodes: Vec<Value> = c
        .graph
        .nodes
        .iter()
        .map(|n| {
            let mut m = serde_json::Map::new();
            m.insert("label".to_string(), Value::String(n.label.clone()));
            Value::Object(m)
        })
        .collect();
    let edges: Vec<Value> = c
        .graph
        .edges
        .iter()
        .map(|e| {
            let mut m = serde_json::Map::new();
            m.insert("source".to_string(), Value::String(e.source.clone()));
            m.insert("directed".to_string(), Value::Bool(e.directed));
            m.insert("target".to_string(), Value::String(e.target.clone()));
            Value::Object(m)
        })
        .collect();
    let mut graph = serde_json::Map::new();
    graph.insert("directed".to_string(), Value::Bool(c.graph.directed));
    graph.insert("nodes".to_string(), Value::Array(nodes));
    graph.insert("edges".to_string(), Value::Array(edges));
    let mut top = serde_json::Map::new();
    top.insert("graph".to_string(), Value::Object(graph));
    Value::Object(top)
}

#[test]
fn json_round_trip_keeps_labels_and_pairs() {
    let notes = vec![
        Note { name: "A".to_string(), text: "[[B]] [[C]] [[B]]".to_string() },
        Note { name: "B".to_string(), text: "[[A]]".to_string() },
    ];
    let c = output_graph(build_graph(&notes));
    let text = serde_json::to_string_pretty(&to_value(&c)).unwrap();
    let back: Value = serde_json::from_str(&text).unwrap();
    let graph = &back["graph"];
    assert_eq!(graph["directed"], Value::Bool(true));
    let nodes = graph["nodes"].as_array().unwrap();
    let edges = graph["edges"].as_array().unwrap();
    assert_eq!(nodes.len(), 3);
    assert_eq!(edges.len(), 3);
    let labels: BTreeSet<String> =
        nodes.iter().map(|n| n["label"].as_str().unwrap().to_string()).collect();
    let expected_labels: BTreeSet<String> =
        ["A", "B", "C"].iter().map(|s| s.to_string()).collect();
    assert_eq!(labels, expected_labels);
    let pairs: BTreeSet<(String, String)> = edges
        .iter()
        .map(|e| {
            (e["source"].as_str().unwrap().to_string(), e["target"].as_str().unwrap().to_string())
        })
        .collect();
    let expected_pairs: BTreeSet<(String, String)> = [("A", "B"), ("A", "C"), ("B", "A")]
        .iter()
        .map(|(a, b)| (a.to_string(), b.to_string()))
        .collect();
    assert_eq!(pairs, expected_pairs);
}
