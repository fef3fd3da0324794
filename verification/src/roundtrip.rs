use vstd::prelude::*;

use crate::json::{lookup, JsonModel, MemberModel};
use crate::types::{
    DocumentModel, EdgeModel, EmbeddingRefModel, NodeModel, TreeDescriptorModel,
};
use crate::error::Severity;
use crate::json::json_text_value;
use crate::laws::{lemma_schema_findings_are_errors, lemma_with_severity_concat};
use crate::schema::{baseline_findings, schema_messages, tier_of, BASELINE_SCHEMA};
use crate::validate::{semantic_diagnostics, stats_of, validation_of, with_severity};
use crate::wire::{
    document_fields, document_json, document_of, edge_fields, edge_json, edge_of, edges_of,
    embedding_fields, embedding_json, embedding_of, node_fields, node_json, node_of, nodes_of,
    optional_field, record, required_items, text_list, tree_fields, tree_json, tree_of,
    trees_json, trees_of,
};

verus! {

/// A lookup among members written one list after another finds what the later
/// list holds, and otherwise what the earlier list holds.
pub proof fn lemma_lookup_concat(a: Seq<MemberModel>, b: Seq<MemberModel>, key: Seq<char>)
    ensures
        lookup(a + b, key) == match lookup(b, key) {
            Some(v) => Some(v),
            None => lookup(a, key),
        },
    decreases b.len(),
{
    if b.len() == 0 {
        assert(a + b =~= a);
    } else {
        assert((a + b).drop_last() =~= a + b.drop_last());
        assert((a + b).last() == b.last());
        lemma_lookup_concat(a, b.drop_last(), key);
    }
}

/// What is written for one field holds that field alone.
pub proof fn lemma_field_lookup(name: Seq<char>, value: Option<JsonModel>, key: Seq<char>)
    ensures
        lookup(optional_field(name, value), key) == if name == key {
            value
        } else {
            None
        },
{
    let written = optional_field(name, value);
    assert(lookup(Seq::<MemberModel>::empty(), key) is None);
    if value is Some {
        assert(written.drop_last() =~= Seq::<MemberModel>::empty());
        assert(written.last() == MemberModel { name, value: value.unwrap() });
    }
}

/// A record has no member under a name that none of its fields has.
pub proof fn lemma_record_absent(fields: Seq<(Seq<char>, Option<JsonModel>)>, key: Seq<char>)
    requires
        forall|j: int| 0 <= j < fields.len() ==> (#[trigger] fields[j]).0 != key,
    ensures
        lookup(record(fields), key) is None,
    decreases fields.len(),
{
    if fields.len() > 0 {
        let rest = fields.drop_last();
        assert forall|j: int| 0 <= j < rest.len() implies (#[trigger] rest[j]).0 != key by {
            assert(rest[j] == fields[j]);
        }
        lemma_record_absent(rest, key);
        lemma_lookup_concat(record(rest), optional_field(fields.last().0, fields.last().1), key);
        lemma_field_lookup(fields.last().0, fields.last().1, key);
        assert(fields.last() == fields[fields.len() - 1]);
    }
}

/// In a record whose fields have different names, the member under the name
/// of a field is the value of that field, and is missing where it has none.
pub proof fn lemma_record_lookup(fields: Seq<(Seq<char>, Option<JsonModel>)>, i: int)
    requires
        0 <= i < fields.len(),
        forall|j: int| 0 <= j < fields.len() && j != i ==> (#[trigger] fields[j]).0 != fields[i].0,
    ensures
        lookup(record(fields), fields[i].0) == fields[i].1,
    decreases fields.len(),
{
    let key = fields[i].0;
    let rest = fields.drop_last();
    let last = fields.last();
    lemma_lookup_concat(record(rest), optional_field(last.0, last.1), key);
    lemma_field_lookup(last.0, last.1, key);
    assert forall|j: int| 0 <= j < rest.len() && j != i implies (#[trigger] rest[j]).0 != key by {
        assert(rest[j] == fields[j]);
    }
    if i == fields.len() - 1 {
        lemma_record_absent(rest, key);
    } else {
        assert(fields[fields.len() - 1].0 != key);
        assert(rest[i] == fields[i]);
        lemma_record_lookup(rest, i);
    }
}

/// A list of texts that is written out reads back as it was.
pub proof fn lemma_text_list_round_trip(list: Seq<Seq<char>>)
    ensures
        text_list(list.map_values(|s: Seq<char>| JsonModel::String(s))) == Some(list),
    decreases list.len(),
{
    let items = list.map_values(|s: Seq<char>| JsonModel::String(s));
    if list.len() > 0 {
        lemma_text_list_round_trip(list.drop_last());
        assert(items.drop_last() =~= list.drop_last().map_values(
            |s: Seq<char>| JsonModel::String(s),
        ));
        assert(text_list(items).unwrap() =~= list);
    } else {
        assert(text_list(items).unwrap() =~= list);
    }
}

/// The names of the fields of a node are all different.
proof fn lemma_node_names(n: NodeModel)
    ensures
        forall|i: int, j: int|
            0 <= i < 5 && 0 <= j < 5 && i != j ==> (#[trigger] node_fields(n)[i]).0 != (
            #[trigger] node_fields(n)[j]).0,
{
    reveal_strlit("id");
    reveal_strlit("content");
    reveal_strlit("metadata");
    reveal_strlit("status");
    reveal_strlit("treeIds");
    assert("content"@[0] != "treeIds"@[0]);
    let f = node_fields(n);
    assert forall|i: int, j: int| 0 <= i < 5 && 0 <= j < 5 && i != j implies (#[trigger] f[i]).0
        != (#[trigger] f[j]).0 by {
        assert(f[0].0 == "id"@ && f[1].0 == "content"@ && f[2].0 == "metadata"@ && f[3].0
            == "status"@ && f[4].0 == "treeIds"@);
    }
}

/// A node that is written out reads back as it was, unless its metadata is
/// the JSON value null, which reads back as no metadata.
pub proof fn lemma_node_round_trip(n: NodeModel)
    requires
        n.metadata != Some(JsonModel::Null),
    ensures
        node_of(node_json(n)) == Some(n),
{
    let fields = node_fields(n);
    lemma_node_names(n);
    lemma_record_lookup(fields, 0);
    lemma_record_lookup(fields, 1);
    lemma_record_lookup(fields, 2);
    lemma_record_lookup(fields, 3);
    lemma_record_lookup(fields, 4);
    match n.tree_ids {
        Some(list) => {
            lemma_text_list_round_trip(list);
        },
        None => {},
    }
}

/// The names of the fields of an edge are all different.
proof fn lemma_edge_names(e: EdgeModel)
    ensures
        forall|i: int, j: int|
            0 <= i < 9 && 0 <= j < 9 && i != j ==> (#[trigger] edge_fields(e)[i]).0 != (
            #[trigger] edge_fields(e)[j]).0,
{
    reveal_strlit("source");
    reveal_strlit("target");
    reveal_strlit("isTrunk");
    reveal_strlit("label");
    reveal_strlit("type");
    reveal_strlit("status");
    reveal_strlit("description");
    reveal_strlit("treeId");
    reveal_strlit("linkType");
    assert("source"@[1] != "target"@[1]);
    assert("source"@[1] != "status"@[1]);
    assert("source"@[0] != "treeId"@[0]);
    assert("target"@[1] != "status"@[1]);
    assert("target"@[1] != "treeId"@[1]);
    assert("status"@[0] != "treeId"@[0]);
    let f = edge_fields(e);
    assert forall|i: int, j: int| 0 <= i < 9 && 0 <= j < 9 && i != j implies (#[trigger] f[i]).0
        != (#[trigger] f[j]).0 by {
        assert(f[0].0 == "source"@ && f[1].0 == "target"@ && f[2].0 == "isTrunk"@ && f[3].0
            == "label"@ && f[4].0 == "type"@ && f[5].0 == "status"@ && f[6].0 == "description"@
            && f[7].0 == "treeId"@ && f[8].0 == "linkType"@);
    }
}

/// An edge that is written out reads back as it was.
pub proof fn lemma_edge_round_trip(e: EdgeModel)
    ensures
        edge_of(edge_json(e)) == Some(e),
{
    let fields = edge_fields(e);
    lemma_edge_names(e);
    lemma_record_lookup(fields, 0);
    lemma_record_lookup(fields, 1);
    lemma_record_lookup(fields, 2);
    lemma_record_lookup(fields, 3);
    lemma_record_lookup(fields, 4);
    lemma_record_lookup(fields, 5);
    lemma_record_lookup(fields, 6);
    lemma_record_lookup(fields, 7);
    lemma_record_lookup(fields, 8);
}

/// The names of the fields of a sub-tree are all different.
proof fn lemma_tree_names(t: TreeDescriptorModel)
    ensures
        forall|i: int, j: int|
            0 <= i < 3 && 0 <= j < 3 && i != j ==> (#[trigger] tree_fields(t)[i]).0 != (
            #[trigger] tree_fields(t)[j]).0,
{
    reveal_strlit("rootNodeId");
    reveal_strlit("label");
    reveal_strlit("description");
    let f = tree_fields(t);
    assert forall|i: int, j: int| 0 <= i < 3 && 0 <= j < 3 && i != j implies (#[trigger] f[i]).0
        != (#[trigger] f[j]).0 by {
        assert(f[0].0 == "rootNodeId"@ && f[1].0 == "label"@ && f[2].0 == "description"@);
    }
}

/// A sub-tree that is written out reads back as it was.
pub proof fn lemma_tree_round_trip(t: TreeDescriptorModel)
    ensures
        tree_of(tree_json(t)) == Some(t),
{
    let fields = tree_fields(t);
    lemma_tree_names(t);
    lemma_record_lookup(fields, 0);
    lemma_record_lookup(fields, 1);
    lemma_record_lookup(fields, 2);
}

/// An embedding reference that is written out reads back as it was.
pub proof fn lemma_embedding_round_trip(e: EmbeddingRefModel)
    ensures
        embedding_of(embedding_json(e)) == Some(e),
{
    let fields = embedding_fields(e);
    reveal_strlit("format");
    reveal_strlit("path");
    assert(fields[0].0 == "format"@ && fields[1].0 == "path"@);
    lemma_record_lookup(fields, 0);
    lemma_record_lookup(fields, 1);
}

/// Nodes that are written out read back as they were, unless one of them has
/// the JSON value null as metadata.
pub proof fn lemma_nodes_round_trip(nodes: Seq<NodeModel>)
    requires
        forall|i: int| 0 <= i < nodes.len() ==> (#[trigger] nodes[i]).metadata != Some(
            JsonModel::Null,
        ),
    ensures
        nodes_of(nodes.map_values(|n: NodeModel| node_json(n))) == Some(nodes),
    decreases nodes.len(),
{
    let items = nodes.map_values(|n: NodeModel| node_json(n));
    if nodes.len() > 0 {
        let rest = nodes.drop_last();
        assert forall|i: int| 0 <= i < rest.len() implies (#[trigger] rest[i]).metadata != Some(
            JsonModel::Null,
        ) by {
            assert(rest[i] == nodes[i]);
        }
        lemma_nodes_round_trip(rest);
        assert(nodes.last() == nodes[nodes.len() - 1]);
        lemma_node_round_trip(nodes.last());
        assert(items.drop_last() =~= rest.map_values(|n: NodeModel| node_json(n)));
        assert(nodes_of(items).unwrap() =~= nodes);
    } else {
        assert(nodes_of(items).unwrap() =~= nodes);
    }
}

/// Edges that are written out read back as they were.
pub proof fn lemma_edges_round_trip(edges: Seq<EdgeModel>)
    ensures
        edges_of(edges.map_values(|e: EdgeModel| edge_json(e))) == Some(edges),
    decreases edges.len(),
{
    let items = edges.map_values(|e: EdgeModel| edge_json(e));
    if edges.len() > 0 {
        let rest = edges.drop_last();
        lemma_edges_round_trip(rest);
        lemma_edge_round_trip(edges.last());
        assert(items.drop_last() =~= rest.map_values(|e: EdgeModel| edge_json(e)));
        assert(edges_of(items).unwrap() =~= edges);
    } else {
        assert(edges_of(items).unwrap() =~= edges);
    }
}

/// Named sub-trees that are written out read back as they were.
pub proof fn lemma_trees_round_trip(trees: Seq<(Seq<char>, TreeDescriptorModel)>)
    ensures
        trees_of(trees_json(trees)->Object_0) == Some(trees),
    decreases trees.len(),
{
    let entries = trees_json(trees)->Object_0;
    if trees.len() > 0 {
        let rest = trees.drop_last();
        lemma_trees_round_trip(rest);
        lemma_tree_round_trip(trees.last().1);
        assert(entries.drop_last() =~= trees_json(rest)->Object_0);
        assert(trees_of(entries).unwrap() =~= trees);
    } else {
        assert(trees_of(entries).unwrap() =~= trees);
    }
}

/// Whether a document keeps its metadata when it is written out and read
/// back: neither the document nor one of its nodes has the JSON value null as
/// metadata, which reads back as no metadata.
pub open spec fn keeps_metadata(d: DocumentModel) -> bool {
    &&& d.metadata != Some(JsonModel::Null)
    &&& forall|i: int| 0 <= i < d.nodes.len() ==> (#[trigger] d.nodes[i]).metadata != Some(
        JsonModel::Null,
    )
}

/// The names of the fields of a document are all different.
proof fn lemma_document_names(d: DocumentModel)
    ensures
        forall|i: int, j: int|
            0 <= i < 9 && 0 <= j < 9 && i != j ==> (#[trigger] document_fields(d)[i]).0 != (
            #[trigger] document_fields(d)[j]).0,
{
    reveal_strlit("formatVersion");
    reveal_strlit("rootNodeId");
    reveal_strlit("nodes");
    reveal_strlit("edges");
    reveal_strlit("minReaderVersion");
    reveal_strlit("features");
    reveal_strlit("metadata");
    reveal_strlit("trees");
    reveal_strlit("embeddingRef");
    assert("nodes"@[0] != "edges"@[0]);
    assert("nodes"@[0] != "trees"@[0]);
    assert("edges"@[0] != "trees"@[0]);
    assert("features"@[0] != "metadata"@[0]);
    let f = document_fields(d);
    assert forall|i: int, j: int| 0 <= i < 9 && 0 <= j < 9 && i != j implies (#[trigger] f[i]).0
        != (#[trigger] f[j]).0 by {
        assert(f[0].0 == "formatVersion"@ && f[1].0 == "rootNodeId"@ && f[2].0 == "nodes"@
            && f[3].0 == "edges"@ && f[4].0 == "minReaderVersion"@ && f[5].0 == "features"@
            && f[6].0 == "metadata"@ && f[7].0 == "trees"@ && f[8].0 == "embeddingRef"@);
    }
}

/// What is written for a document has each of its fields under the name of
/// that field, and lacks the fields that the document does not have.
pub proof fn lemma_document_members(d: DocumentModel)
    ensures
        forall|i: int|
            0 <= i < 9 ==> document_json(d).member((#[trigger] document_fields(d)[i]).0)
                == document_fields(d)[i].1,
{
    let fields = document_fields(d);
    lemma_document_names(d);
    assert forall|i: int| 0 <= i < 9 implies document_json(d).member((#[trigger] fields[i]).0)
        == fields[i].1 by {
        lemma_record_lookup(fields, i);
    }
}

/// A document that is written out reads back as it was, as long as it keeps
/// its metadata.
pub proof fn lemma_document_round_trip(d: DocumentModel)
    requires
        keeps_metadata(d),
    ensures
        document_of(document_json(d)) == Some(d),
{
    let fields = document_fields(d);
    lemma_document_members(d);
    assert(fields[0].0 == "formatVersion"@ && fields[1].0 == "rootNodeId"@ && fields[2].0
        == "nodes"@ && fields[3].0 == "edges"@ && fields[4].0 == "minReaderVersion"@
        && fields[5].0 == "features"@ && fields[6].0 == "metadata"@ && fields[7].0 == "trees"@
        && fields[8].0 == "embeddingRef"@);
    lemma_nodes_round_trip(d.nodes);
    lemma_edges_round_trip(d.edges);
    match d.features {
        Some(list) => {
            lemma_text_list_round_trip(list);
        },
        None => {},
    }
    match d.trees {
        Some(trees) => {
            lemma_trees_round_trip(trees);
        },
        None => {},
    }
    match d.embedding_ref {
        Some(e) => {
            lemma_embedding_round_trip(e);
        },
        None => {},
    }
}

/// The tier of a document by the fields that it has: 2 with sub-trees;
/// otherwise 1 with a reader version, features or metadata; otherwise 0.
pub open spec fn document_tier(d: DocumentModel) -> u8 {
    if d.trees is Some {
        2
    } else if d.min_reader_version is Some || d.features is Some || d.metadata is Some {
        1
    } else {
        0
    }
}

/// What is written for a document has the tier of the document.
pub proof fn lemma_written_tier(d: DocumentModel)
    ensures
        tier_of(document_json(d)) == document_tier(d),
{
    let fields = document_fields(d);
    lemma_document_members(d);
    assert(fields[4].0 == "minReaderVersion"@ && fields[5].0 == "features"@ && fields[6].0
        == "metadata"@ && fields[7].0 == "trees"@);
}

/// Whether none of the members by which the tier of a JSON value is detected
/// is null. A null member counts for the tier and reads as an absent field.
pub open spec fn tier_members_hold_values(v: JsonModel) -> bool {
    &&& v.member("trees"@) != Some(JsonModel::Null)
    &&& v.member("minReaderVersion"@) != Some(JsonModel::Null)
    &&& v.member("features"@) != Some(JsonModel::Null)
    &&& v.member("metadata"@) != Some(JsonModel::Null)
}

/// A JSON value that stands for a document has the tier of that document, as
/// long as none of the members by which the tier is detected is null.
pub proof fn lemma_parsed_tier(v: JsonModel)
    requires
        document_of(v) is Some,
        tier_members_hold_values(v),
    ensures
        tier_of(v) == document_tier(document_of(v).unwrap()),
{
}

/// Nodes that were read from JSON values never have the JSON value null as
/// metadata.
pub proof fn lemma_read_nodes_keep_metadata(items: Seq<JsonModel>)
    requires
        nodes_of(items) is Some,
    ensures
        nodes_of(items).unwrap().len() == items.len(),
        forall|i: int|
            0 <= i < items.len() ==> (#[trigger] nodes_of(items).unwrap()[i]).metadata != Some(
                JsonModel::Null,
            ),
    decreases items.len(),
{
    if items.len() > 0 {
        lemma_read_nodes_keep_metadata(items.drop_last());
    }
}

/// A document that was read from a JSON value keeps its metadata when it is
/// written out and read back.
pub proof fn lemma_read_document_keeps_metadata(v: JsonModel)
    requires
        document_of(v) is Some,
    ensures
        keeps_metadata(document_of(v).unwrap()),
{
    lemma_read_nodes_keep_metadata(required_items(v, "nodes"@).unwrap());
}

/// Two JSON values that stand for the same document validate alike: they
/// have the same warnings, the same advisories, the same errors of the five
/// rules behind their own schema findings, and the same counts. Where their
/// schema findings and their tiers are the same too, so are their results.
pub proof fn lemma_same_document(v: JsonModel, w: JsonModel)
    requires
        document_of(v) is Some,
        document_of(w) == document_of(v),
    ensures
        validation_of(v) is Some,
        validation_of(w) is Some,
        validation_of(w).unwrap().warnings == validation_of(v).unwrap().warnings,
        validation_of(w).unwrap().advisories == validation_of(v).unwrap().advisories,
        validation_of(v).unwrap().errors == baseline_findings(v) + with_severity(
            semantic_diagnostics(document_of(v).unwrap()),
            Severity::Error,
        ),
        validation_of(w).unwrap().errors == baseline_findings(w) + with_severity(
            semantic_diagnostics(document_of(v).unwrap()),
            Severity::Error,
        ),
        validation_of(v).unwrap().stats == stats_of(document_of(v).unwrap(), tier_of(v)),
        validation_of(w).unwrap().stats == stats_of(document_of(v).unwrap(), tier_of(w)),
        baseline_findings(w) == baseline_findings(v) && tier_of(w) == tier_of(v)
            ==> validation_of(w) == validation_of(v),
{
    let d = document_of(v).unwrap();
    let found = semantic_diagnostics(d);
    let schema = json_text_value(BASELINE_SCHEMA@)->Some_0;
    lemma_schema_findings_are_errors(schema_messages(schema, v));
    lemma_schema_findings_are_errors(schema_messages(schema, w));
    lemma_with_severity_concat(baseline_findings(v), found, Severity::Error);
    lemma_with_severity_concat(baseline_findings(v), found, Severity::Warning);
    lemma_with_severity_concat(baseline_findings(v), found, Severity::Advisory);
    lemma_with_severity_concat(baseline_findings(w), found, Severity::Error);
    lemma_with_severity_concat(baseline_findings(w), found, Severity::Warning);
    lemma_with_severity_concat(baseline_findings(w), found, Severity::Advisory);
    assert(with_severity(baseline_findings(v), Severity::Warning) + with_severity(
        found,
        Severity::Warning,
    ) =~= with_severity(found, Severity::Warning));
    assert(with_severity(baseline_findings(w), Severity::Warning) + with_severity(
        found,
        Severity::Warning,
    ) =~= with_severity(found, Severity::Warning));
    assert(with_severity(baseline_findings(v), Severity::Advisory) + with_severity(
        found,
        Severity::Advisory,
    ) =~= with_severity(found, Severity::Advisory));
    assert(with_severity(baseline_findings(w), Severity::Advisory) + with_severity(
        found,
        Severity::Advisory,
    ) =~= with_severity(found, Severity::Advisory));
}

/// Validating what is written for a document that was read before gives the
/// same document again. Hence it gives the same warnings and advisories, the
/// same errors of the five rules, and the same counts of nodes, edges, trunk
/// edges and branches. The tier is the same as long as none of the members by
/// which it is detected was null; with the same schema findings as well, the
/// result is the same.
pub proof fn lemma_revalidation(v: JsonModel)
    requires
        document_of(v) is Some,
    ensures
        document_of(document_json(document_of(v).unwrap())) == document_of(v),
        validation_of(document_json(document_of(v).unwrap())) is Some,
        validation_of(v) is Some,
        validation_of(document_json(document_of(v).unwrap())).unwrap().warnings
            == validation_of(v).unwrap().warnings,
        validation_of(document_json(document_of(v).unwrap())).unwrap().advisories
            == validation_of(v).unwrap().advisories,
        validation_of(document_json(document_of(v).unwrap())).unwrap().errors
            == baseline_findings(document_json(document_of(v).unwrap())) + with_severity(
            semantic_diagnostics(document_of(v).unwrap()),
            Severity::Error,
        ),
        validation_of(document_json(document_of(v).unwrap())).unwrap().stats == stats_of(
            document_of(v).unwrap(),
            tier_of(document_json(document_of(v).unwrap())),
        ),
        tier_members_hold_values(v) ==> tier_of(document_json(document_of(v).unwrap()))
            == tier_of(v),
        tier_members_hold_values(v) && baseline_findings(document_json(document_of(v).unwrap()))
            == baseline_findings(v) ==> validation_of(document_json(document_of(v).unwrap()))
            == validation_of(v),
{
    let d = document_of(v).unwrap();
    lemma_read_document_keeps_metadata(v);
    lemma_document_round_trip(d);
    lemma_written_tier(d);
    if tier_members_hold_values(v) {
        lemma_parsed_tier(v);
    }
    lemma_same_document(v, document_json(d));
}

/// Two texts that stand for the same document validate alike, as two JSON
/// values do: a text that is written for a document and reads back as that
/// document has the warnings, the advisories, the errors of the five rules
/// and the counts of the text that the document was read from.
pub proof fn lemma_same_document_texts(t: Seq<char>, s: Seq<char>)
    requires
        json_text_value(t) is Some,
        json_text_value(s) is Some,
        document_of(json_text_value(t).unwrap()) is Some,
        document_of(json_text_value(s).unwrap()) == document_of(json_text_value(t).unwrap()),
    ensures
        validation_of(json_text_value(t).unwrap()) is Some,
        validation_of(json_text_value(s).unwrap()) is Some,
        validation_of(json_text_value(s).unwrap()).unwrap().warnings == validation_of(
            json_text_value(t).unwrap(),
        ).unwrap().warnings,
        validation_of(json_text_value(s).unwrap()).unwrap().advisories == validation_of(
            json_text_value(t).unwrap(),
        ).unwrap().advisories,
        validation_of(json_text_value(s).unwrap()).unwrap().stats == stats_of(
            document_of(json_text_value(t).unwrap()).unwrap(),
            tier_of(json_text_value(s).unwrap()),
        ),
        validation_of(json_text_value(t).unwrap()).unwrap().stats == stats_of(
            document_of(json_text_value(t).unwrap()).unwrap(),
            tier_of(json_text_value(t).unwrap()),
        ),
        baseline_findings(json_text_value(s).unwrap()) == baseline_findings(
            json_text_value(t).unwrap(),
        ) && tier_of(json_text_value(s).unwrap()) == tier_of(json_text_value(t).unwrap())
            ==> validation_of(json_text_value(s).unwrap()) == validation_of(
            json_text_value(t).unwrap(),
        ),
{
    lemma_same_document(json_text_value(t).unwrap(), json_text_value(s).unwrap());
}

} // verus!
