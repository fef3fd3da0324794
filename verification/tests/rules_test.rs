use tree_doc_core::error::{Location, Rule, Severity};
use tree_doc_core::parse::ParseError;
use tree_doc_core::schema::{
    baseline_schema_ready, report_violations, tier1_schema_ready, try_validate_schema,
};
use tree_doc_core::validate::{assemble_result, sort_findings, try_validate_document};
use tree_doc_core::validate_document;
use tree_doc_core::{DocumentStats, parse};

fn path_of(location: &Location) -> Vec<String> {
    match location {
        Location::Path(ids) => ids.clone(),
        other => panic!("expected a path, got {other:?}"),
    }
}

#[test]
fn single_node_document_is_valid_and_flat() {
    let json = r#"{"formatVersion": "1.0", "rootNodeId": "n1",
        "nodes": [{"id": "n1", "content": "Only"}], "edges": []}"#;
    let result = validate_document(json).unwrap();
    assert!(result.is_valid);
    assert!(result.errors.is_empty());
    assert!(result.warnings.is_empty());
    assert!(result.advisories.is_empty());
    assert_eq!(
        result.stats,
        DocumentStats { node_count: 1, edge_count: 0, trunk_length: 0, branch_count: 0, tier: 0 }
    );
    let view = tree_doc_core::build_trunk_view(&parse(json).unwrap()).unwrap();
    assert_eq!(view.steps.len(), 1);
    assert!(view.steps[0].is_terminal);
    assert_eq!(view.steps[0].branch_count, 0);
}

#[test]
fn cycle_off_the_trunk_is_one_warning() {
    let json = r#"{"formatVersion": "1.0", "rootNodeId": "n1",
        "nodes": [{"id": "n1", "content": ""}, {"id": "n2", "content": ""},
                  {"id": "n3", "content": ""}],
        "edges": [{"source": "n1", "target": "n2", "isTrunk": true},
                  {"source": "n2", "target": "n3"}, {"source": "n3", "target": "n2"}]}"#;
    let result = validate_document(json).unwrap();
    assert!(result.is_valid);
    assert!(result.errors.is_empty());
    assert_eq!(result.warnings.len(), 1);
    let warning = &result.warnings[0];
    assert_eq!(warning.rule, Rule::GeneralCycle);
    assert_eq!(warning.severity, Severity::Warning);
    let mut ids = path_of(&warning.location);
    assert_eq!(
        warning.message,
        format!("Cycle detected among 2 nodes: {}, {}", ids[0], ids[1])
    );
    ids.sort();
    assert_eq!(ids, vec!["n2", "n3"]);
}

#[test]
fn unreferenced_node_is_one_advisory() {
    let json = r#"{"formatVersion": "1.0", "rootNodeId": "n1",
        "nodes": [{"id": "n1", "content": ""}, {"id": "n2", "content": ""},
                  {"id": "orphan", "content": ""}],
        "edges": [{"source": "n1", "target": "n2", "isTrunk": true}]}"#;
    let result = validate_document(json).unwrap();
    assert!(result.is_valid);
    assert_eq!(result.advisories.len(), 1);
    let advisory = &result.advisories[0];
    assert_eq!(advisory.rule, Rule::OrphanNode);
    assert_eq!(advisory.severity, Severity::Advisory);
    assert_eq!(advisory.message, "Node 'orphan' is not reachable from root node 'n1'");
    assert_eq!(advisory.location.to_string(), "node 'orphan'");
}

#[test]
fn edge_between_unknown_nodes_is_two_errors() {
    let json = r#"{"formatVersion": "1.0", "rootNodeId": "n1",
        "nodes": [{"id": "n1", "content": ""}],
        "edges": [{"source": "n3", "target": "n99"}]}"#;
    let result = validate_document(json).unwrap();
    assert!(!result.is_valid);
    assert_eq!(result.errors.len(), 2);
    assert!(result.errors.iter().all(|d| d.rule == Rule::DanglingEdge));
    assert_eq!(
        result.errors[0].message,
        "Edge references nonexistent node 'n3' as source (target: 'n99')"
    );
    assert_eq!(
        result.errors[1].message,
        "Edge references nonexistent node 'n99' as target (source: 'n3')"
    );
    assert_eq!(result.errors[0].location.to_string(), "edge 'n3' -> 'n99'");
    assert_eq!(result.errors[1].location.to_string(), "edge 'n3' -> 'n99'");
}

#[test]
fn edge_with_one_unknown_end_is_one_error() {
    let json = r#"{"formatVersion": "1.0", "rootNodeId": "n1",
        "nodes": [{"id": "n1", "content": ""}],
        "edges": [{"source": "n1", "target": "gone"}]}"#;
    let result = validate_document(json).unwrap();
    assert_eq!(result.errors.len(), 1);
    assert_eq!(
        result.errors[0].message,
        "Edge references nonexistent node 'gone' as target (source: 'n1')"
    );
}

#[test]
fn trunk_back_to_the_root_is_one_cycle() {
    let json = r#"{"formatVersion": "1.0", "rootNodeId": "n1",
        "nodes": [{"id": "n1", "content": ""}, {"id": "n2", "content": ""}],
        "edges": [{"source": "n1", "target": "n2", "isTrunk": true},
                  {"source": "n2", "target": "n1", "isTrunk": true}]}"#;
    let result = validate_document(json).unwrap();
    assert!(!result.is_valid);
    let cycles: Vec<_> = result.errors.iter().filter(|d| d.rule == Rule::TrunkCycle).collect();
    assert_eq!(cycles.len(), 1);
    assert_eq!(path_of(&cycles[0].location), vec!["n1", "n2"]);
    assert_eq!(cycles[0].message, "Trunk path contains a cycle: n1 -> n2");
    assert_eq!(result.stats.trunk_length, 2);
}

#[test]
fn trunk_cycle_lists_the_suffix_from_the_first_repeat() {
    let json = r#"{"formatVersion": "1.0", "rootNodeId": "n1",
        "nodes": [{"id": "n1", "content": ""}, {"id": "n2", "content": ""},
                  {"id": "n3", "content": ""}],
        "edges": [{"source": "n1", "target": "n2", "isTrunk": true},
                  {"source": "n2", "target": "n3", "isTrunk": true},
                  {"source": "n3", "target": "n2", "isTrunk": true}]}"#;
    let result = validate_document(json).unwrap();
    let cycles: Vec<_> = result.errors.iter().filter(|d| d.rule == Rule::TrunkCycle).collect();
    assert_eq!(cycles.len(), 1);
    assert_eq!(path_of(&cycles[0].location), vec!["n2", "n3"]);
    assert_eq!(result.stats.trunk_length, 3);
}

#[test]
fn trunk_edge_from_a_node_to_itself_is_a_cycle_of_one() {
    let json = r#"{"formatVersion": "1.0", "rootNodeId": "n1",
        "nodes": [{"id": "n1", "content": ""}],
        "edges": [{"source": "n1", "target": "n1", "isTrunk": true}]}"#;
    let result = validate_document(json).unwrap();
    let cycles: Vec<_> = result.errors.iter().filter(|d| d.rule == Rule::TrunkCycle).collect();
    assert_eq!(cycles.len(), 1);
    assert_eq!(path_of(&cycles[0].location), vec!["n1"]);
    assert_eq!(result.stats.trunk_length, 1);
    assert!(result.warnings.is_empty());
}

#[test]
fn later_trunk_edge_from_a_node_wins() {
    let json = r#"{"formatVersion": "1.0", "rootNodeId": "n1",
        "nodes": [{"id": "n1", "content": ""}, {"id": "n2", "content": ""},
                  {"id": "n3", "content": ""}, {"id": "n4", "content": ""}],
        "edges": [{"source": "n1", "target": "n2", "isTrunk": true},
                  {"source": "n2", "target": "n4", "isTrunk": true},
                  {"source": "n1", "target": "n3", "isTrunk": true}]}"#;
    let result = validate_document(json).unwrap();
    assert!(result.is_valid);
    assert_eq!(result.stats.trunk_length, 1);
    assert_eq!(result.stats.branch_count, 0);
    let view = tree_doc_core::build_trunk_view(&parse(json).unwrap()).unwrap();
    let ids: Vec<&str> = view.steps.iter().map(|s| s.node_id.as_str()).collect();
    assert_eq!(ids, vec!["n1", "n3"]);
}

#[test]
fn every_later_node_with_a_seen_id_is_a_duplicate() {
    let json = r#"{"formatVersion": "1.0", "rootNodeId": "a",
        "nodes": [{"id": "a", "content": ""}, {"id": "b", "content": ""},
                  {"id": "a", "content": ""}, {"id": "a", "content": ""}],
        "edges": []}"#;
    let result = validate_document(json).unwrap();
    let duplicates: Vec<_> =
        result.errors.iter().filter(|d| d.rule == Rule::DuplicateNodeId).collect();
    assert_eq!(duplicates.len(), 2);
    assert_eq!(duplicates[0].message, "Duplicate node ID 'a'");
    assert_eq!(duplicates[0].location.to_string(), "node 'a'");
    assert_eq!(result.stats.node_count, 4);
    // "b" cannot be reached; "a" can, each time it occurs
    assert_eq!(result.advisories.len(), 1);
}

#[test]
fn clean_graph_has_no_duplicate_and_no_dangling_finding() {
    let json = r#"{"formatVersion": "1.0", "rootNodeId": "a",
        "nodes": [{"id": "a", "content": ""}, {"id": "b", "content": ""},
                  {"id": "c", "content": ""}],
        "edges": [{"source": "a", "target": "b", "isTrunk": true},
                  {"source": "b", "target": "c"}, {"source": "c", "target": "a"}]}"#;
    let result = validate_document(json).unwrap();
    let all = result.errors.iter().chain(&result.warnings).chain(&result.advisories);
    for d in all {
        assert_ne!(d.rule, Rule::DuplicateNodeId);
        assert_ne!(d.rule, Rule::DanglingEdge);
    }
}

#[test]
fn warnings_and_advisories_leave_a_document_valid() {
    let json = r#"{"formatVersion": "1.0", "rootNodeId": "n1",
        "nodes": [{"id": "n1", "content": ""}, {"id": "n2", "content": ""},
                  {"id": "n3", "content": ""}, {"id": "lost", "content": ""}],
        "edges": [{"source": "n1", "target": "n2", "isTrunk": true},
                  {"source": "n2", "target": "n3"}, {"source": "n3", "target": "n2"}]}"#;
    let result = validate_document(json).unwrap();
    assert_eq!(result.warnings.len(), 1);
    assert_eq!(result.advisories.len(), 1);
    assert!(result.errors.is_empty());
    assert!(result.is_valid);
}

#[test]
fn node_behind_an_unknown_id_counts_as_reached() {
    let json = r#"{"formatVersion": "1.0", "rootNodeId": "n1",
        "nodes": [{"id": "n1", "content": ""}, {"id": "n2", "content": ""}],
        "edges": [{"source": "n1", "target": "ghost"}, {"source": "ghost", "target": "n2"}]}"#;
    let result = validate_document(json).unwrap();
    assert!(result.advisories.is_empty());
    assert_eq!(result.errors.len(), 2);
}

#[test]
fn edges_are_followed_in_their_direction_only() {
    let json = r#"{"formatVersion": "1.0", "rootNodeId": "n1",
        "nodes": [{"id": "n1", "content": ""}, {"id": "n2", "content": ""}],
        "edges": [{"source": "n2", "target": "n1"}]}"#;
    let result = validate_document(json).unwrap();
    assert_eq!(result.advisories.len(), 1);
    assert_eq!(result.advisories[0].message, "Node 'n2' is not reachable from root node 'n1'");
}

#[test]
fn rules_from_the_root_are_silent_without_root() {
    let json = r#"{"formatVersion": "1.0",
        "nodes": [{"id": "n1", "content": ""}, {"id": "n2", "content": ""}],
        "edges": [{"source": "n1", "target": "n2", "isTrunk": true},
                  {"source": "n2", "target": "n1", "isTrunk": true}]}"#;
    let result = validate_document(json).unwrap();
    assert!(result.errors.is_empty());
    assert!(result.advisories.is_empty());
    assert_eq!(result.warnings.len(), 1);
    assert_eq!(result.stats.trunk_length, 0);
}

#[test]
fn rules_from_the_root_are_silent_for_an_unknown_root() {
    let json = r#"{"formatVersion": "1.0", "rootNodeId": "elsewhere",
        "nodes": [{"id": "n1", "content": ""}, {"id": "n2", "content": ""}],
        "edges": [{"source": "elsewhere", "target": "n1", "isTrunk": true},
                  {"source": "n1", "target": "elsewhere", "isTrunk": true}]}"#;
    let result = validate_document(json).unwrap();
    assert!(result.errors.iter().all(|d| d.rule == Rule::DanglingEdge));
    assert_eq!(result.errors.len(), 2);
    assert!(result.advisories.is_empty());
    // the count of trunk edges does not ask whether the root is a node
    assert_eq!(result.stats.trunk_length, 2);
}

#[test]
fn branch_count_is_the_number_of_edges_off_the_trunk() {
    let json = r#"{"formatVersion": "1.0", "rootNodeId": "n1",
        "nodes": [{"id": "n1", "content": ""}, {"id": "n2", "content": ""}],
        "edges": [{"source": "n1", "target": "n2", "isTrunk": true},
                  {"source": "n1", "target": "n2", "isTrunk": false},
                  {"source": "n1", "target": "n2"},
                  {"source": "n1", "target": "n2", "isTrunk": null}]}"#;
    let result = validate_document(json).unwrap();
    assert_eq!(result.stats.edge_count, 4);
    assert_eq!(result.stats.branch_count, 3);
    assert_eq!(result.stats.trunk_length, 1);
}

#[test]
fn value_that_is_no_document_is_rejected_with_schema_findings() {
    let result = validate_document(r#"[{"id": "n1"}]"#).unwrap();
    assert!(!result.is_valid);
    assert!(!result.errors.is_empty());
    assert!(result.errors.iter().all(|d| d.rule == Rule::SchemaValidation));
    assert!(result.errors.iter().all(|d| matches!(d.location, Location::Root)));
    assert!(result.warnings.is_empty());
    assert!(result.advisories.is_empty());
    assert_eq!(
        result.stats,
        DocumentStats { node_count: 0, edge_count: 0, trunk_length: 0, branch_count: 0, tier: 0 }
    );
}

#[test]
fn schema_findings_come_with_those_of_the_rules() {
    // the schema wants a string as root id; the document can be read all the same
    let json = r#"{"formatVersion": "1.0", "rootNodeId": null,
        "nodes": [{"id": "a", "content": ""}, {"id": "a", "content": ""}], "edges": []}"#;
    let result = validate_document(json).unwrap();
    assert!(!result.is_valid);
    assert!(result.errors.iter().any(|d| d.rule == Rule::SchemaValidation));
    assert!(result.errors.iter().any(|d| d.rule == Rule::DuplicateNodeId));
    assert_eq!(result.errors[0].rule, Rule::SchemaValidation);
    assert_eq!(result.stats.node_count, 2);
}

#[test]
fn malformed_text_is_invalid_json() {
    let error = validate_document("{not valid json}").unwrap_err();
    assert!(matches!(error, ParseError::InvalidJson(_)));
    assert!(error.to_string().starts_with("invalid JSON: "));
    assert!(matches!(parse("").unwrap_err(), ParseError::InvalidJson(_)));
}

#[test]
fn document_of_the_wrong_shape_that_passes_the_schema_is_a_failure() {
    let json = r#"{"formatVersion": "1.0", "nodes": [], "edges": [], "features": "none"}"#;
    let error = validate_document(json).unwrap_err();
    assert!(matches!(&error, ParseError::InvalidDocument(field) if field == "features"));
    assert!(matches!(parse(json).unwrap_err(), ParseError::InvalidDocument(field) if field == "features"));
    assert!(
        matches!(parse("[1, 2]").unwrap_err(), ParseError::InvalidDocument(field) if field == "formatVersion")
    );
    assert_eq!(error.to_string(), "invalid JSON: missing or invalid field `features`");
}

#[test]
fn baseline_schema_loads() {
    assert!(baseline_schema_ready());
    assert!(tier1_schema_ready());
    let value: serde_json::Value = serde_json::from_str("{}").unwrap();
    let found = try_validate_schema(&value).unwrap();
    assert_eq!(found.len(), 3);
    let outcome = try_validate_document("{}").unwrap().unwrap();
    assert_eq!(outcome.errors.len(), 3);
}

#[test]
fn violations_become_errors_at_the_root() {
    let found = report_violations(vec!["first".to_string(), "second".to_string()]);
    assert_eq!(found.len(), 2);
    assert_eq!(found[0].to_string(), "[error] schema-validation: first (at (document root))");
    assert_eq!(found[1].message, "second");
    assert!(report_violations(Vec::new()).is_empty());
}

#[test]
fn findings_are_sorted_by_severity_in_their_order() {
    let stats =
        DocumentStats { node_count: 2, edge_count: 1, trunk_length: 1, branch_count: 0, tier: 2 };
    let make = |severity: Severity, message: &str| tree_doc_core::Diagnostic {
        rule: Rule::OrphanNode,
        message: message.to_string(),
        location: Location::Root,
        severity,
    };
    let all = vec![
        make(Severity::Advisory, "a1"),
        make(Severity::Error, "e1"),
        make(Severity::Warning, "w1"),
        make(Severity::Error, "e2"),
        make(Severity::Advisory, "a2"),
    ];
    let result = sort_findings(all, stats);
    assert!(!result.is_valid);
    let messages = |v: &Vec<tree_doc_core::Diagnostic>| -> Vec<String> {
        v.iter().map(|d| d.message.clone()).collect()
    };
    assert_eq!(messages(&result.errors), vec!["e1", "e2"]);
    assert_eq!(messages(&result.warnings), vec!["w1"]);
    assert_eq!(messages(&result.advisories), vec!["a1", "a2"]);
    assert_eq!(result.stats, stats);
    assert!(sort_findings(vec![make(Severity::Warning, "w")], stats).is_valid);
}

#[test]
fn result_without_document_needs_schema_findings() {
    let failure = assemble_result(Vec::new(), Err("nodes".to_string()), 1);
    assert!(matches!(failure, Err(ParseError::InvalidDocument(field)) if field == "nodes"));
    let rejected =
        assemble_result(report_violations(vec!["bad".to_string()]), Err("nodes".to_string()), 1)
            .unwrap();
    assert!(!rejected.is_valid);
    assert_eq!(rejected.errors.len(), 1);
    assert_eq!(rejected.stats.tier, 0);
}
