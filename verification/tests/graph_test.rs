use tree_doc_core::index::TextIndex;
use tree_doc_core::parse;
use tree_doc_core::reach::{is_reached, reached_edges, target_index};
use tree_doc_core::scc::strong_components;
use tree_doc_core::trunk::{find_trunk_edge, source_index, trunk_walk};
use tree_doc_core::types::Edge;
use tree_doc_core::validate::{component_ids, distinct_ids, find_vertex, index_of_texts, node_index};

fn edge(source: &str, target: &str, is_trunk: Option<bool>) -> Edge {
    Edge {
        source: source.to_string(),
        target: target.to_string(),
        is_trunk,
        label: None,
        edge_type: None,
        status: None,
        description: None,
        tree_id: None,
        link_type: None,
    }
}

fn sorted(mut components: Vec<Vec<usize>>) -> Vec<Vec<usize>> {
    for c in components.iter_mut() {
        c.sort();
    }
    components.sort();
    components
}

#[test]
fn ring_is_one_component() {
    let links = vec![(0, 1), (1, 2), (2, 0)];
    assert_eq!(sorted(strong_components(3, &links)), vec![vec![0, 1, 2]]);
}

#[test]
fn vertices_without_way_back_stand_alone() {
    let links = vec![(0, 1), (1, 2)];
    let components = strong_components(3, &links);
    // a component comes before those that lead to it
    assert_eq!(components, vec![vec![2], vec![1], vec![0]]);
    assert_eq!(strong_components(2, &Vec::new()).len(), 2);
    assert!(strong_components(0, &Vec::new()).is_empty());
}

#[test]
fn loop_at_one_vertex_is_a_component_of_one() {
    let links = vec![(0, 0), (0, 1)];
    assert_eq!(sorted(strong_components(2, &links)), vec![vec![0], vec![1]]);
}

#[test]
fn two_rings_joined_one_way_are_two_components() {
    let links = vec![(0, 1), (1, 0), (1, 2), (2, 3), (3, 2)];
    assert_eq!(sorted(strong_components(4, &links)), vec![vec![0, 1], vec![2, 3]]);
}

#[test]
fn trunk_edge_of_a_node_is_the_last_one_marked() {
    let edges = vec![
        edge("a", "b", Some(true)),
        edge("a", "c", None),
        edge("a", "d", Some(true)),
        edge("a", "e", Some(false)),
        edge("b", "a", Some(true)),
    ];
    let sources = source_index(&edges);
    assert_eq!(find_trunk_edge(&edges, &sources, &"a".to_string()), Some(2));
    assert_eq!(find_trunk_edge(&edges, &sources, &"b".to_string()), Some(4));
    assert_eq!(find_trunk_edge(&edges, &sources, &"c".to_string()), None);
}

#[test]
fn walk_ends_at_a_node_without_trunk_edge() {
    let edges = vec![edge("a", "b", Some(true)), edge("c", "d", Some(true)), edge("b", "c", Some(true))];
    let sources = source_index(&edges);
    let (hops, looped) = trunk_walk(&edges, &sources, &"a".to_string());
    assert_eq!(hops, vec![0, 2, 1]);
    assert!(!looped);
    let (hops, looped) = trunk_walk(&edges, &sources, &"d".to_string());
    assert!(hops.is_empty());
    assert!(!looped);
}

#[test]
fn walk_ends_at_the_first_node_met_again() {
    let edges = vec![edge("a", "b", Some(true)), edge("b", "c", Some(true)), edge("c", "b", Some(true))];
    let (hops, looped) = trunk_walk(&edges, &source_index(&edges), &"a".to_string());
    assert_eq!(hops, vec![0, 1, 2]);
    assert!(looped);
}

#[test]
fn marks_tell_what_can_be_reached() {
    let edges = vec![
        edge("a", "b", None),
        edge("b", "c", Some(true)),
        edge("x", "a", None),
        edge("c", "a", None),
        edge("y", "z", None),
    ];
    let root = "a".to_string();
    let active = reached_edges(&edges, &source_index(&edges), &root);
    assert_eq!(active, vec![true, true, false, true, false]);
    let targets = target_index(&edges);
    for (id, expected) in [("a", true), ("b", true), ("c", true), ("x", false), ("z", false)] {
        assert_eq!(is_reached(&edges, &targets, &active, &root, &id.to_string()), expected, "{id}");
    }
}

#[test]
fn root_without_edges_reaches_itself_only() {
    let edges = vec![edge("b", "c", None)];
    let root = "a".to_string();
    let active = reached_edges(&edges, &source_index(&edges), &root);
    assert_eq!(active, vec![false]);
    let targets = target_index(&edges);
    assert!(is_reached(&edges, &targets, &active, &root, &root));
    assert!(!is_reached(&edges, &targets, &active, &root, &"c".to_string()));
}

#[test]
fn vertices_are_the_ids_in_the_order_of_their_first_occurrence() {
    let doc = parse(
        r#"{"formatVersion": "1", "nodes": [{"id": "b", "content": ""}, {"id": "a", "content": ""},
            {"id": "b", "content": ""}, {"id": "c", "content": ""}], "edges": []}"#,
    )
    .unwrap();
    let vertices = distinct_ids(&doc);
    assert_eq!(vertices, vec!["b", "a", "c"]);
    let numbers = index_of_texts(&vertices);
    assert_eq!(find_vertex(&numbers, &"a".to_string()), Some(1));
    assert_eq!(find_vertex(&numbers, &"z".to_string()), None);
    assert_eq!(component_ids(&vertices, &vec![2, 0, 7]), vec!["c", "b"]);
    let ids = node_index(&doc);
    assert_eq!(ids.len(), 4);
    assert_eq!(ids.positions(&"b".to_string()), vec![0, 2]);
}

#[test]
fn index_finds_the_places_of_a_key() {
    let mut index = TextIndex::new(4);
    let keys = ["x", "y", "x", "", "z", "x", "y", "é", "x"];
    for key in keys {
        index.insert(&key.to_string());
    }
    assert_eq!(index.len(), 9);
    assert_eq!(index.positions(&"x".to_string()), vec![0, 2, 5, 8]);
    assert_eq!(index.positions(&"y".to_string()), vec![1, 6]);
    assert_eq!(index.positions(&"".to_string()), vec![3]);
    assert_eq!(index.positions(&"é".to_string()), vec![7]);
    assert!(index.positions(&"w".to_string()).is_empty());
    assert_eq!(index.last(&"x".to_string()), Some(8));
    assert_eq!(index.last(&"z".to_string()), Some(4));
    assert_eq!(index.last(&"w".to_string()), None);
    assert!(index.contains(&"z".to_string()));
    assert!(!index.contains(&"zz".to_string()));
}

#[test]
fn index_with_one_slot_or_none_asked_for_still_finds_every_key() {
    for slots in [0, 1] {
        let mut index = TextIndex::new(slots);
        for i in 0..50usize {
            index.insert(&format!("k{}", i % 10));
        }
        assert_eq!(index.positions(&"k3".to_string()), vec![3, 13, 23, 33, 43]);
        assert!(!index.contains(&"k10".to_string()));
    }
}

#[test]
fn long_chain_is_walked_and_searched() {
    let n = 20000;
    let mut edges = Vec::new();
    for i in 0..n {
        edges.push(edge(&format!("n{i}"), &format!("n{}", i + 1), Some(true)));
    }
    let sources = source_index(&edges);
    let root = "n0".to_string();
    let (hops, looped) = trunk_walk(&edges, &sources, &root);
    assert_eq!(hops.len(), n);
    assert!(!looped);
    let active = reached_edges(&edges, &sources, &root);
    assert!(active.iter().all(|a| *a));
    let targets = target_index(&edges);
    assert!(is_reached(&edges, &targets, &active, &root, &format!("n{n}")));
}
