use tree_doc_core::json::{JsonValue, Member};
use tree_doc_core::wire::{
    document_from_json, document_to_json, edge_from_json, embedding_from_json, node_from_json,
    node_to_json, tree_from_json,
};
use tree_doc_core::{build_trunk_view, detect_tier, parse};

fn text(s: &str) -> JsonValue {
    JsonValue::String(s.to_string())
}

fn object(members: Vec<(&str, JsonValue)>) -> JsonValue {
    JsonValue::Object(
        members.into_iter().map(|(name, value)| Member { name: name.to_string(), value }).collect(),
    )
}

const FULL: &str = r#"{
  "formatVersion": "2.0",
  "minReaderVersion": "1.5",
  "features": ["labels", "trees"],
  "metadata": { "title": "Atlas", "pages": 12, "ratio": 0.5, "tags": ["x", null, true] },
  "rootNodeId": "a",
  "nodes": [
    { "id": "a", "content": "A", "status": "draft", "treeIds": ["t1"], "metadata": { "k": 1 } },
    { "id": "b", "content": "B" }
  ],
  "edges": [
    { "source": "a", "target": "b", "isTrunk": true, "label": "go", "type": "next",
      "status": "ok", "description": "onwards", "treeId": "t1", "linkType": "hard" }
  ],
  "trees": { "t1": { "rootNodeId": "a", "label": "Main", "description": "the main tree" } },
  "embeddingRef": { "format": "npy", "path": "vectors.npy" },
  "somethingElse": [1, 2, 3]
}"#;

#[test]
fn all_modelled_fields_are_read() {
    let doc = parse(FULL).unwrap();
    assert_eq!(doc.format_version, "2.0");
    assert_eq!(doc.min_reader_version.as_deref(), Some("1.5"));
    assert_eq!(doc.features, Some(vec!["labels".to_string(), "trees".to_string()]));
    assert_eq!(doc.root_node_id.as_deref(), Some("a"));
    assert_eq!(doc.nodes[0].status.as_deref(), Some("draft"));
    assert_eq!(doc.nodes[0].tree_ids, Some(vec!["t1".to_string()]));
    assert!(doc.nodes[0].metadata.is_some());
    assert!(doc.nodes[1].metadata.is_none());
    let edge = &doc.edges[0];
    assert_eq!(edge.is_trunk, Some(true));
    assert_eq!(edge.label.as_deref(), Some("go"));
    assert_eq!(edge.edge_type.as_deref(), Some("next"));
    assert_eq!(edge.status.as_deref(), Some("ok"));
    assert_eq!(edge.description.as_deref(), Some("onwards"));
    assert_eq!(edge.tree_id.as_deref(), Some("t1"));
    assert_eq!(edge.link_type.as_deref(), Some("hard"));
    let trees = doc.trees.as_ref().unwrap();
    assert_eq!(trees.len(), 1);
    assert_eq!(trees[0].0, "t1");
    assert_eq!(trees[0].1.root_node_id, "a");
    assert_eq!(trees[0].1.label.as_deref(), Some("Main"));
    let embedding = doc.embedding_ref.as_ref().unwrap();
    assert_eq!(embedding.format, "npy");
    assert_eq!(embedding.path.as_deref(), Some("vectors.npy"));
}

#[test]
fn written_document_reads_back_as_it_was() {
    let doc = parse(FULL).unwrap();
    let written = document_to_json(&doc);
    let again = document_from_json(&written).unwrap();
    assert_eq!(format!("{doc:?}"), format!("{again:?}"));
    assert_eq!(format!("{written:?}"), format!("{:?}", document_to_json(&again)));
}

#[test]
fn absent_fields_are_not_written() {
    let doc = parse(r#"{"formatVersion": "1.0", "nodes": [{"id": "a", "content": ""}], "edges": []}"#)
        .unwrap();
    let written = document_to_json(&doc);
    assert!(written.get("formatVersion").is_some());
    assert!(written.get("nodes").is_some());
    assert!(written.get("edges").is_some());
    for name in ["rootNodeId", "minReaderVersion", "features", "metadata", "trees", "embeddingRef"] {
        assert!(written.get(name).is_none(), "{name}");
    }
    let node = node_to_json(&doc.nodes[0]);
    assert_eq!(node.get("id").and_then(|v| v.as_str()).map(|s| s.as_str()), Some("a"));
    assert!(node.get("status").is_none());
}

#[test]
fn null_reads_as_an_absent_field() {
    let doc = parse(
        r#"{"formatVersion": "1.0", "rootNodeId": null, "nodes": [], "edges": [],
            "metadata": null, "features": null, "trees": null, "embeddingRef": null}"#,
    )
    .unwrap();
    assert!(doc.root_node_id.is_none());
    assert!(doc.metadata.is_none());
    assert!(doc.features.is_none());
    assert!(doc.trees.is_none());
    assert!(doc.embedding_ref.is_none());
}

#[test]
fn required_fields_must_be_there() {
    assert!(parse(r#"{"nodes": [], "edges": []}"#).is_err());
    assert!(parse(r#"{"formatVersion": "1.0", "edges": []}"#).is_err());
    assert!(parse(r#"{"formatVersion": "1.0", "nodes": []}"#).is_err());
    assert!(parse(r#"{"formatVersion": null, "nodes": [], "edges": []}"#).is_err());
    assert!(parse(r#"{"formatVersion": "1.0", "nodes": [{"id": "a"}], "edges": []}"#).is_err());
    assert!(parse(r#"{"formatVersion": "1.0", "nodes": [], "edges": [{"source": "a"}]}"#).is_err());
    assert!(parse(r#"{"formatVersion": "1.0", "nodes": [], "edges": []}"#).is_ok());
}

#[test]
fn fields_must_have_their_type() {
    assert!(node_from_json(&object(vec![("id", text("a")), ("content", text(""))])).is_some());
    assert!(node_from_json(&object(vec![("id", JsonValue::Bool(true)), ("content", text(""))]))
        .is_none());
    assert!(node_from_json(&object(vec![
        ("id", text("a")),
        ("content", text("")),
        ("treeIds", JsonValue::Array(vec![text("t"), JsonValue::Null])),
    ]))
    .is_none());
    assert!(edge_from_json(&object(vec![
        ("source", text("a")),
        ("target", text("b")),
        ("isTrunk", text("yes")),
    ]))
    .is_none());
    assert!(tree_from_json(&object(vec![("label", text("x"))])).is_none());
    assert!(tree_from_json(&object(vec![("rootNodeId", text("x"))])).is_some());
    assert!(embedding_from_json(&object(vec![("format", text("x")), ("path", JsonValue::Null)]))
        .is_some());
    assert!(embedding_from_json(&text("npy")).is_none());
    assert_eq!(document_from_json(&JsonValue::Array(Vec::new())).unwrap_err(), "formatVersion");
}

#[test]
fn later_member_of_a_name_counts() {
    let value = object(vec![("id", text("first")), ("content", text("")), ("id", text("second"))]);
    assert_eq!(value.get("id").and_then(|v| v.as_str()).map(|s| s.as_str()), Some("second"));
    assert_eq!(node_from_json(&value).unwrap().id, "second");
    assert!(value.get("missing").is_none());
    assert!(text("id").get("id").is_none());
    assert!(JsonValue::Null.as_str().is_none());
}

#[test]
fn copy_of_a_value_is_the_same_value() {
    let doc = parse(FULL).unwrap();
    let metadata = doc.metadata.unwrap();
    assert_eq!(format!("{metadata:?}"), format!("{:?}", metadata.clone()));
}

#[test]
fn tier_goes_by_the_members_of_the_value() {
    let tier = |json: &str| detect_tier(&serde_json::from_str(json).unwrap());
    assert_eq!(tier(r#"{}"#), 0);
    assert_eq!(tier(r#"{"nodes": []}"#), 0);
    assert_eq!(tier(r#"{"minReaderVersion": "1"}"#), 1);
    assert_eq!(tier(r#"{"features": []}"#), 1);
    assert_eq!(tier(r#"{"metadata": null}"#), 1);
    assert_eq!(tier(r#"{"trees": {}}"#), 2);
    assert_eq!(tier(r#"{"trees": null, "metadata": {}}"#), 2);
    assert_eq!(tier(r#"["trees"]"#), 0);
    assert_eq!(tier(r#""metadata""#), 0);
}

#[test]
fn view_without_root_fails() {
    let doc = parse(r#"{"formatVersion": "1.0", "nodes": [], "edges": []}"#).unwrap();
    assert_eq!(build_trunk_view(&doc).unwrap_err(), "Document has no rootNodeId");
}

#[test]
fn view_from_an_unknown_root_fails() {
    let doc = parse(
        r#"{"formatVersion": "1.0", "rootNodeId": "zz", "nodes": [{"id": "a", "content": ""}],
            "edges": []}"#,
    )
    .unwrap();
    assert_eq!(build_trunk_view(&doc).unwrap_err(), "Root node 'zz' not found in nodes array");
}

#[test]
fn view_along_a_trunk_to_an_unknown_node_fails() {
    let doc = parse(
        r#"{"formatVersion": "1.0", "rootNodeId": "a", "nodes": [{"id": "a", "content": ""}],
            "edges": [{"source": "a", "target": "gone", "isTrunk": true}]}"#,
    )
    .unwrap();
    assert_eq!(build_trunk_view(&doc).unwrap_err(), "Root node 'gone' not found in nodes array");
}

#[test]
fn view_shows_title_counts_and_steps() {
    let doc = parse(FULL).unwrap();
    let view = build_trunk_view(&doc).unwrap();
    assert_eq!(view.title, "Atlas");
    assert_eq!(view.stats, "2 nodes, 1 edges");
    assert_eq!(view.steps.len(), 2);
    assert_eq!(view.steps[0].content, "A");
    assert_eq!(view.steps[0].trunk_target.as_deref(), Some("b"));
    assert!(!view.steps[0].is_terminal);
    assert_eq!(view.steps[1].content, "B");
    assert_eq!(view.steps[1].trunk_target, None);
    assert!(view.steps[1].is_terminal);
}

#[test]
fn title_that_is_no_string_gives_the_placeholder() {
    for metadata in [r#"{"title": 7}"#, r#"{"name": "x"}"#, r#"["title"]"#, r#""title""#] {
        let json = format!(
            r#"{{"formatVersion": "1.0", "rootNodeId": "a", "metadata": {metadata},
                "nodes": [{{"id": "a", "content": ""}}], "edges": []}}"#
        );
        let view = build_trunk_view(&parse(&json).unwrap()).unwrap();
        assert_eq!(view.title, "Untitled Document", "{metadata}");
        assert_eq!(view.stats, "1 nodes, 0 edges");
    }
}

#[test]
fn view_stops_where_the_trunk_meets_a_node_again() {
    let doc = parse(
        r#"{"formatVersion": "1.0", "rootNodeId": "a",
            "nodes": [{"id": "a", "content": "A"}, {"id": "b", "content": "B"}],
            "edges": [{"source": "a", "target": "b", "isTrunk": true},
                      {"source": "b", "target": "a", "isTrunk": true}]}"#,
    )
    .unwrap();
    let view = build_trunk_view(&doc).unwrap();
    assert_eq!(view.steps.len(), 2);
    assert_eq!(view.steps[1].node_id, "b");
    assert_eq!(view.steps[1].trunk_target.as_deref(), Some("a"));
    assert!(!view.steps[1].is_terminal);
}

#[test]
fn view_counts_all_branches_and_lists_those_with_label() {
    let doc = parse(
        r#"{"formatVersion": "1.0", "rootNodeId": "a",
            "nodes": [{"id": "a", "content": "first"}, {"id": "b", "content": ""},
                      {"id": "a", "content": "second"}],
            "edges": [{"source": "a", "target": "b", "label": "one"},
                      {"source": "a", "target": "b"},
                      {"source": "b", "target": "a", "label": "back"},
                      {"source": "a", "target": "b", "isTrunk": false, "label": "two"}]}"#,
    )
    .unwrap();
    let view = build_trunk_view(&doc).unwrap();
    assert_eq!(view.steps.len(), 1);
    assert_eq!(view.steps[0].branch_count, 3);
    assert_eq!(view.steps[0].branch_labels, vec!["one", "two"]);
    // where nodes share an id, the last of them is shown
    assert_eq!(view.steps[0].content, "second");
}

#[test]
fn named_sub_trees_of_a_read_document_have_names_of_their_own() {
    let doc = parse(
        r#"{"formatVersion": "1.0", "nodes": [], "edges": [],
            "trees": {"b": {"rootNodeId": "x"}, "a": {"rootNodeId": "y"},
                      "b": {"rootNodeId": "z"}}}"#,
    )
    .unwrap();
    let trees = doc.trees.unwrap();
    let mut names: Vec<&str> = trees.iter().map(|t| t.0.as_str()).collect();
    assert_eq!(names.len(), 2);
    names.sort();
    names.dedup();
    assert_eq!(names, vec!["a", "b"]);
    let b = trees.iter().find(|t| t.0 == "b").unwrap();
    assert_eq!(b.1.root_node_id, "z");
}

#[test]
fn first_field_at_fault_is_named() {
    let fault = |json: &str| match parse(json).unwrap_err() {
        tree_doc_core::parse::ParseError::InvalidDocument(field) => field,
        other => panic!("{other:?}"),
    };
    assert_eq!(fault(r#"{}"#), "formatVersion");
    assert_eq!(fault(r#"{"formatVersion": 1, "nodes": 2}"#), "formatVersion");
    assert_eq!(fault(r#"{"formatVersion": "1", "rootNodeId": 7}"#), "rootNodeId");
    assert_eq!(fault(r#"{"formatVersion": "1"}"#), "nodes");
    assert_eq!(fault(r#"{"formatVersion": "1", "nodes": [{"id": "a"}], "edges": []}"#), "nodes");
    assert_eq!(fault(r#"{"formatVersion": "1", "nodes": []}"#), "edges");
    assert_eq!(fault(r#"{"formatVersion": "1", "nodes": [], "edges": [{"source": "a"}]}"#), "edges");
    let rest = r#""formatVersion": "1", "nodes": [], "edges": []"#;
    assert_eq!(fault(&format!("{{{rest}, \"minReaderVersion\": 2, \"features\": 3}}")), "minReaderVersion");
    assert_eq!(fault(&format!("{{{rest}, \"features\": [1]}}")), "features");
    assert_eq!(fault(&format!("{{{rest}, \"trees\": {{\"t\": {{}}}}}}")), "trees");
    assert_eq!(fault(&format!("{{{rest}, \"trees\": {{}}, \"embeddingRef\": {{}}}}")), "embeddingRef");
}
