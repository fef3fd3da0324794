use tree_doc_core::{build_trunk_view, parse};

const MINIMAL: &str = r#"{
  "formatVersion": "1.0",
  "rootNodeId": "n1",
  "nodes": [
    { "id": "n1", "content": "Root" },
    { "id": "n2", "content": "On the trunk" },
    { "id": "n3", "content": "A branch" }
  ],
  "edges": [
    { "source": "n1", "target": "n2", "isTrunk": true },
    { "source": "n1", "target": "n3", "isTrunk": false }
  ]
}"#;

const STORY: &str = r#"{
  "formatVersion": "1.0",
  "minReaderVersion": "1.0",
  "features": ["labels"],
  "metadata": { "title": "The Enchanted Garden" },
  "rootNodeId": "start",
  "nodes": [
    { "id": "start", "content": "You stand before a garden wall." },
    { "id": "enter", "content": "You walk through the door." },
    { "id": "fountain", "content": "A fountain glitters in the sun." },
    { "id": "wish", "content": "You make a wish." },
    { "id": "ending", "content": "The garden grants it." },
    { "id": "climb", "content": "You climb the wall." },
    { "id": "rest", "content": "You rest on a bench." }
  ],
  "edges": [
    { "source": "start", "target": "enter", "isTrunk": true, "label": "Open the door" },
    { "source": "start", "target": "climb", "label": "Climb the wall" },
    { "source": "enter", "target": "fountain", "isTrunk": true },
    { "source": "fountain", "target": "wish", "isTrunk": true },
    { "source": "fountain", "target": "rest", "label": "Rest a while" },
    { "source": "wish", "target": "ending", "isTrunk": true }
  ]
}"#;

#[test]
fn viewer_minimal_trunk_view() {
    let json = MINIMAL;
    let doc = parse(json).unwrap();
    let view = build_trunk_view(&doc).unwrap();

    assert_eq!(view.title, "Untitled Document");
    assert_eq!(view.steps.len(), 2); // n1 -> n2 (trunk), n3 is branch
    assert_eq!(view.steps[0].node_id, "n1");
    assert_eq!(view.steps[0].branch_count, 1); // n3 is a branch
    assert!(!view.steps[0].is_terminal);
    assert_eq!(view.steps[0].trunk_target, Some("n2".to_string()));
    assert_eq!(view.steps[1].node_id, "n2");
    assert!(view.steps[1].is_terminal);
    assert_eq!(view.steps[1].branch_count, 0);
}

#[test]
fn viewer_story_trunk_view() {
    let json = STORY;
    let doc = parse(json).unwrap();
    let view = build_trunk_view(&doc).unwrap();

    assert_eq!(view.title, "The Enchanted Garden");
    // Trunk: start -> enter -> fountain -> wish -> ending
    assert_eq!(view.steps.len(), 5);
    assert_eq!(view.steps[0].node_id, "start");
    assert_eq!(view.steps[0].branch_count, 1); // "climb" branch
    assert_eq!(view.steps[0].branch_labels, vec!["Climb the wall"]);
    assert_eq!(view.steps[4].node_id, "ending");
    assert!(view.steps[4].is_terminal);
}

#[test]
fn single_node_view() {
    let json = r#"{
            "formatVersion": "1.0",
            "rootNodeId": "n1",
            "nodes": [{"id": "n1", "content": "Only node"}],
            "edges": []
        }"#;
    let doc = parse(json).unwrap();
    let view = build_trunk_view(&doc).unwrap();

    assert_eq!(view.steps.len(), 1);
    assert!(view.steps[0].is_terminal);
    assert_eq!(view.steps[0].branch_count, 0);
}
