use tree_doc_core::error::Rule;
use tree_doc_core::validate_document;

const MINIMAL: &str = r#"{
  "formatVersion": "1.0",
  "rootNodeId": "n1",
  "nodes": [
    { "id": "n1", "content": "Root" },
    { "id": "n2", "content": "On the trunk" },
    { "id": "n3", "content": "A branch" }
  ],
  "edges": [
    { "source": "n1", "target": "n2", "isTrunk": true },
    { "source": "n1", "target": "n3", "isTrunk": false }
  ]
}"#;

const STORY: &str = r#"{
  "formatVersion": "1.0",
  "minReaderVersion": "1.0",
  "features": ["labels"],
  "metadata": { "title": "The Enchanted Garden" },
  "rootNodeId": "start",
  "nodes": [
    { "id": "start", "content": "You stand before a garden wall." },
    { "id": "enter", "content": "You walk through the door." },
    { "id": "fountain", "content": "A fountain glitters in the sun." },
    { "id": "wish", "content": "You make a wish." },
    { "id": "ending", "content": "The garden grants it." },
    { "id": "climb", "content": "You climb the wall." },
    { "id": "rest", "content": "You rest on a bench." }
  ],
  "edges": [
    { "source": "start", "target": "enter", "isTrunk": true, "label": "Open the door" },
    { "source": "start", "target": "climb", "label": "Climb the wall" },
    { "source": "enter", "target": "fountain", "isTrunk": true },
    { "source": "fountain", "target": "wish", "isTrunk": true },
    { "source": "fountain", "target": "rest", "label": "Rest a while" },
    { "source": "wish", "target": "ending", "isTrunk": true }
  ]
}"#;

const EMPTY_DOCUMENT: &str = r#"{
  "formatVersion": "1.0",
  "rootNodeId": "root",
  "nodes": [ { "id": "root", "content": "" } ],
  "edges": []
}"#;

const DUPLICATE_IDS: &str = r#"{
  "formatVersion": "1.0",
  "rootNodeId": "n1",
  "nodes": [
    { "id": "n1", "content": "First" },
    { "id": "n2", "content": "Second" },
    { "id": "n1", "content": "First again" }
  ],
  "edges": [ { "source": "n1", "target": "n2", "isTrunk": true } ]
}"#;

const DANGLING_EDGE: &str = r#"{
  "formatVersion": "1.0",
  "rootNodeId": "n1",
  "nodes": [
    { "id": "n1", "content": "First" },
    { "id": "n2", "content": "Second" }
  ],
  "edges": [
    { "source": "n1", "target": "n2", "isTrunk": true },
    { "source": "n3", "target": "n99" }
  ]
}"#;

const TRUNK_CYCLE: &str = r#"{
  "formatVersion": "1.0",
  "rootNodeId": "n1",
  "nodes": [
    { "id": "n1", "content": "First" },
    { "id": "n2", "content": "Second" },
    { "id": "n3", "content": "Third" }
  ],
  "edges": [
    { "source": "n1", "target": "n2", "isTrunk": true },
    { "source": "n2", "target": "n3", "isTrunk": true },
    { "source": "n3", "target": "n1", "isTrunk": true }
  ]
}"#;

const MISSING_FIELDS: &str = r#"{
  "rootNodeId": "n1",
  "nodes": [ { "id": "n1" } ]
}"#;

const ORPHAN_NODE: &str = r#"{
  "formatVersion": "1.0",
  "rootNodeId": "n1",
  "nodes": [
    { "id": "n1", "content": "Root" },
    { "id": "n2", "content": "Reached" },
    { "id": "lost1", "content": "Nobody points here" },
    { "id": "lost2", "content": "Nor here" }
  ],
  "edges": [ { "source": "n1", "target": "n2", "isTrunk": true } ]
}"#;

const GENERAL_CYCLE: &str = r#"{
  "formatVersion": "1.0",
  "rootNodeId": "n1",
  "nodes": [
    { "id": "n1", "content": "Root" },
    { "id": "n2", "content": "A" },
    { "id": "n3", "content": "B" }
  ],
  "edges": [
    { "source": "n1", "target": "n2", "isTrunk": true },
    { "source": "n2", "target": "n3" },
    { "source": "n3", "target": "n2" }
  ]
}"#;

#[test]
fn valid_minimal() {
    let json = MINIMAL;
    let result = validate_document(json).unwrap();
    assert!(result.is_valid);
    assert_eq!(result.stats.node_count, 3);
    assert_eq!(result.stats.edge_count, 2);
    assert_eq!(result.stats.tier, 0);
}

#[test]
fn valid_story() {
    let json = STORY;
    let result = validate_document(json).unwrap();
    assert!(result.is_valid);
    assert_eq!(result.stats.node_count, 7);
    assert_eq!(result.stats.tier, 1);
    assert_eq!(result.stats.trunk_length, 4);
}

#[test]
fn valid_empty_document() {
    let json = EMPTY_DOCUMENT;
    let result = validate_document(json).unwrap();
    assert!(result.is_valid);
    assert_eq!(result.stats.node_count, 1);
    assert_eq!(result.stats.edge_count, 0);
    assert_eq!(result.stats.trunk_length, 0);
}

#[test]
fn invalid_duplicate_ids() {
    let json = DUPLICATE_IDS;
    let result = validate_document(json).unwrap();
    assert!(!result.is_valid);
    assert!(result.errors.iter().any(|d| d.rule == Rule::DuplicateNodeId));
}

#[test]
fn invalid_dangling_edge() {
    let json = DANGLING_EDGE;
    let result = validate_document(json).unwrap();
    assert!(!result.is_valid);
    let dangling_count = result
        .errors
        .iter()
        .filter(|d| d.rule == Rule::DanglingEdge)
        .count();
    // n3 (source) and n99 (target) are both nonexistent
    assert_eq!(dangling_count, 2);
}

#[test]
fn invalid_trunk_cycle() {
    let json = TRUNK_CYCLE;
    let result = validate_document(json).unwrap();
    assert!(!result.is_valid);
    assert!(result.errors.iter().any(|d| d.rule == Rule::TrunkCycle));
}

#[test]
fn invalid_missing_fields() {
    let json = MISSING_FIELDS;
    let result = validate_document(json).unwrap();
    assert!(!result.is_valid);
    assert!(result
        .errors
        .iter()
        .any(|d| d.rule == Rule::SchemaValidation));
}

#[test]
fn invalid_orphan_nodes() {
    let json = ORPHAN_NODE;
    let result = validate_document(json).unwrap();
    // Orphans are advisories, not errors
    assert!(result.is_valid);
    let orphans: Vec<_> = result
        .advisories
        .iter()
        .filter(|d| d.rule == Rule::OrphanNode)
        .collect();
    assert_eq!(orphans.len(), 2);
}

#[test]
fn invalid_general_cycle() {
    let json = GENERAL_CYCLE;
    let result = validate_document(json).unwrap();
    // General cycles are warnings, not errors
    assert!(result.is_valid);
    assert!(result
        .warnings
        .iter()
        .any(|d| d.rule == Rule::GeneralCycle));
}

#[test]
fn malformed_json_returns_error() {
    let result = validate_document("{not valid json}");
    assert!(result.is_err());
}

#[test]
fn wrong_shape_array_not_object() {
    let json = r#"[{"id": "n1"}]"#;
    let result = validate_document(json).unwrap();
    assert!(!result.is_valid);
}

#[test]
fn extra_fields_accepted() {
    let json = r#"{
        "formatVersion": "1.0",
        "rootNodeId": "n1",
        "nodes": [{"id": "n1", "content": "hi", "customField": 42}],
        "edges": [],
        "topLevelCustom": true
    }"#;
    let result = validate_document(json).unwrap();
    assert!(result.is_valid);
}

#[test]
fn multiple_trunk_edges_from_one_node() {
    // Only the last trunk edge from a node counts, but this should still validate
    let json = r#"{
        "formatVersion": "1.0",
        "rootNodeId": "n1",
        "nodes": [
            {"id": "n1", "content": "Start"},
            {"id": "n2", "content": "A"},
            {"id": "n3", "content": "B"}
        ],
        "edges": [
            {"source": "n1", "target": "n2", "isTrunk": true},
            {"source": "n1", "target": "n3", "isTrunk": true}
        ]
    }"#;
    let result = validate_document(json).unwrap();
    assert!(result.is_valid);
}

#[test]
fn linear_document_no_branches() {
    let json = r#"{
        "formatVersion": "1.0",
        "rootNodeId": "n1",
        "nodes": [
            {"id": "n1", "content": "Chapter 1"},
            {"id": "n2", "content": "Chapter 2"},
            {"id": "n3", "content": "Chapter 3"}
        ],
        "edges": [
            {"source": "n1", "target": "n2", "isTrunk": true},
            {"source": "n2", "target": "n3", "isTrunk": true}
        ]
    }"#;
    let result = validate_document(json).unwrap();
    assert!(result.is_valid);
    assert_eq!(result.stats.trunk_length, 2);
    assert_eq!(result.stats.branch_count, 0);
}
