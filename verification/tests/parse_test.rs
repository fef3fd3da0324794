use tree_doc_core::json::JsonValue;
use tree_doc_core::wire::{document_to_json, edge_to_json};
use tree_doc_core::{parse, parse_value, validate_document};

const MINIMAL: &str = r#"{
  "formatVersion": "1.0",
  "rootNodeId": "n1",
  "nodes": [
    { "id": "n1", "content": "Root" },
    { "id": "n2", "content": "On the trunk" },
    { "id": "n3", "content": "A branch" }
  ],
  "edges": [
    { "source": "n1", "target": "n2", "isTrunk": true },
    { "source": "n1", "target": "n3", "isTrunk": false }
  ]
}"#;

const STORY: &str = r#"{
  "formatVersion": "1.0",
  "minReaderVersion": "1.0",
  "features": ["labels"],
  "metadata": { "title": "The Enchanted Garden" },
  "rootNodeId": "start",
  "nodes": [
    { "id": "start", "content": "You stand before a garden wall." },
    { "id": "enter", "content": "You walk through the door." },
    { "id": "fountain", "content": "A fountain glitters in the sun." },
    { "id": "wish", "content": "You make a wish." },
    { "id": "ending", "content": "The garden grants it." },
    { "id": "climb", "content": "You climb the wall." },
    { "id": "rest", "content": "You rest on a bench." }
  ],
  "edges": [
    { "source": "start", "target": "enter", "isTrunk": true, "label": "Open the door" },
    { "source": "start", "target": "climb", "label": "Climb the wall" },
    { "source": "enter", "target": "fountain", "isTrunk": true },
    { "source": "fountain", "target": "wish", "isTrunk": true },
    { "source": "fountain", "target": "rest", "label": "Rest a while" },
    { "source": "wish", "target": "ending", "isTrunk": true }
  ]
}"#;

fn to_serde(value: &JsonValue) -> serde_json::Value {
    match value {
        JsonValue::Null => serde_json::Value::Null,
        JsonValue::Bool(b) => serde_json::Value::Bool(*b),
        JsonValue::Number(n) => serde_json::Value::Number(n.clone()),
        JsonValue::String(s) => serde_json::Value::String(s.clone()),
        JsonValue::Array(items) => serde_json::Value::Array(items.iter().map(to_serde).collect()),
        JsonValue::Object(members) => serde_json::Value::Object(
            members
                .iter()
                .map(|m| (m.name.clone(), to_serde(&m.value)))
                .collect(),
        ),
    }
}

#[test]
fn parse_minimal_document() {
    let json = MINIMAL;
    let doc = parse(json).unwrap();
    assert_eq!(doc.format_version, "1.0");
    assert_eq!(doc.root_node_id.as_deref(), Some("n1"));
    assert_eq!(doc.nodes.len(), 3);
    assert_eq!(doc.edges.len(), 2);
}

#[test]
fn parse_tier1_document() {
    let json = STORY;
    let doc = parse(json).unwrap();
    assert_eq!(doc.min_reader_version.as_deref(), Some("1.0"));
    assert_eq!(doc.features.as_ref().unwrap(), &["labels"]);
    assert!(doc.metadata.is_some());
}

#[test]
fn roundtrip_serde() {
    let json = MINIMAL;
    let doc = parse(json).unwrap();
    let serialized = serde_json::to_string_pretty(&to_serde(&document_to_json(&doc))).unwrap();
    let doc2 = parse(&serialized).unwrap();
    assert_eq!(doc.nodes.len(), doc2.nodes.len());
    assert_eq!(doc.edges.len(), doc2.edges.len());
}

#[test]
fn parse_invalid_json() {
    let result = parse("not json at all");
    assert!(result.is_err());
}

#[test]
fn parse_value_returns_value() {
    let json = r#"{"formatVersion": "1.0"}"#;
    let value = parse_value(json).unwrap();
    assert_eq!(value["formatVersion"], "1.0");
}

#[test]
fn edge_type_renames_correctly() {
    let json = MINIMAL;
    let doc = parse(json).unwrap();
    let trunk_edge = &doc.edges[0];
    assert_eq!(trunk_edge.is_trunk, Some(true));
    // Write the edge back and look for the name of the field on the wire
    let val = edge_to_json(&doc.edges[0]);
    assert!(val.get("isTrunk").is_some());
}

#[test]
fn written_document_validates_as_before() {
    for json in [MINIMAL, STORY] {
        let first = validate_document(json).unwrap();
        let doc = parse(json).unwrap();
        let written = serde_json::to_string(&to_serde(&document_to_json(&doc))).unwrap();
        let second = validate_document(&written).unwrap();
        assert_eq!(first.stats, second.stats);
        assert_eq!(first.is_valid, second.is_valid);
        assert_eq!(format!("{:?}", first.errors), format!("{:?}", second.errors));
        assert_eq!(format!("{:?}", first.warnings), format!("{:?}", second.warnings));
        assert_eq!(format!("{:?}", first.advisories), format!("{:?}", second.advisories));
    }
}

#[test]
fn written_document_with_findings_validates_as_before() {
    let json = r#"{"formatVersion": "1.0", "rootNodeId": "a",
        "nodes": [{"id": "a", "content": ""}, {"id": "b", "content": ""},
                  {"id": "c", "content": ""}, {"id": "lost", "content": ""}],
        "edges": [{"source": "a", "target": "b", "isTrunk": true},
                  {"source": "b", "target": "a", "isTrunk": true},
                  {"source": "b", "target": "c"}, {"source": "c", "target": "b"},
                  {"source": "c", "target": "nowhere"}]}"#;
    let first = validate_document(json).unwrap();
    assert!(!first.errors.is_empty() && !first.warnings.is_empty() && !first.advisories.is_empty());
    let doc = parse(json).unwrap();
    let written = serde_json::to_string(&to_serde(&document_to_json(&doc))).unwrap();
    let second = validate_document(&written).unwrap();
    assert_eq!(first.stats, second.stats);
    assert_eq!(format!("{:?}", first.errors), format!("{:?}", second.errors));
    assert_eq!(format!("{:?}", first.warnings), format!("{:?}", second.warnings));
    assert_eq!(format!("{:?}", first.advisories), format!("{:?}", second.advisories));
}
