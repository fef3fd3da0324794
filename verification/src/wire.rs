use vstd::prelude::*;

use crate::json::{
    lemma_array_view, lemma_lookup_found, lemma_object_view, lookup, names_distinct, JsonModel,
    JsonValue, Member, MemberModel,
};
use crate::text::texts;
use crate::types::{
    edge_models, node_models, opt_text, opt_texts, tree_models, DocumentModel, Edge, EdgeModel,
    EmbeddingRef, EmbeddingRefModel, Node, NodeModel, TreeDescriptor, TreeDescriptorModel,
    TreeDocument,
};

verus! {

/// The text of the member `key`, which must be there and be a string.
pub open spec fn required_text(v: JsonModel, key: Seq<char>) -> Option<Seq<char>> {
    match v.member(key) {
        Some(m) => m.as_text(),
        None => None,
    }
}

/// The text of the member `key`, which may be missing or null and must
/// otherwise be a string. The outer `None` stands for a member of another type.
pub open spec fn optional_text(v: JsonModel, key: Seq<char>) -> Option<Option<Seq<char>>> {
    match v.member(key) {
        None => Some(None),
        Some(JsonModel::Null) => Some(None),
        Some(JsonModel::String(s)) => Some(Some(s)),
        Some(_) => None,
    }
}

/// The truth value of the member `key`, which may be missing or null and must
/// otherwise be a boolean.
pub open spec fn optional_flag(v: JsonModel, key: Seq<char>) -> Option<Option<bool>> {
    match v.member(key) {
        None => Some(None),
        Some(JsonModel::Null) => Some(None),
        Some(JsonModel::Bool(b)) => Some(Some(b)),
        Some(_) => None,
    }
}

/// The member `key` as it stands, where it is there and not null.
pub open spec fn optional_value(v: JsonModel, key: Seq<char>) -> Option<JsonModel> {
    match v.member(key) {
        None => None,
        Some(JsonModel::Null) => None,
        Some(m) => Some(m),
    }
}

/// The texts of `items`, which must all be strings.
pub open spec fn text_list(items: Seq<JsonModel>) -> Option<Seq<Seq<char>>>
    decreases items.len(),
{
    if items.len() == 0 {
        Some(Seq::empty())
    } else {
        match (text_list(items.drop_last()), items.last().as_text()) {
            (Some(rest), Some(s)) => Some(rest.push(s)),
            _ => None,
        }
    }
}

/// The texts of the member `key`, which may be missing or null and must
/// otherwise be an array of strings.
pub open spec fn optional_text_list(v: JsonModel, key: Seq<char>) -> Option<
    Option<Seq<Seq<char>>>,
> {
    match v.member(key) {
        None => Some(None),
        Some(JsonModel::Null) => Some(None),
        Some(JsonModel::Array(items)) => match text_list(items) {
            Some(list) => Some(Some(list)),
            None => None,
        },
        Some(_) => None,
    }
}

/// The items of the member `key`, which must be there and be an array.
pub open spec fn required_items(v: JsonModel, key: Seq<char>) -> Option<Seq<JsonModel>> {
    match v.member(key) {
        Some(JsonModel::Array(items)) => Some(items),
        _ => None,
    }
}

/// The node that a JSON value stands for: `id` and `content` are required.
pub open spec fn node_of(v: JsonModel) -> Option<NodeModel> {
    if required_text(v, "id"@) is Some && required_text(v, "content"@) is Some && optional_text(
        v,
        "status"@,
    ) is Some && optional_text_list(v, "treeIds"@) is Some {
        Some(
            NodeModel {
                id: required_text(v, "id"@).unwrap(),
                content: required_text(v, "content"@).unwrap(),
                metadata: optional_value(v, "metadata"@),
                status: optional_text(v, "status"@).unwrap(),
                tree_ids: optional_text_list(v, "treeIds"@).unwrap(),
            },
        )
    } else {
        None
    }
}

/// The edge that a JSON value stands for: `source` and `target` are required.
pub open spec fn edge_of(v: JsonModel) -> Option<EdgeModel> {
    if required_text(v, "source"@) is Some && required_text(v, "target"@) is Some
        && optional_flag(v, "isTrunk"@) is Some && optional_text(v, "label"@) is Some
        && optional_text(v, "type"@) is Some && optional_text(v, "status"@) is Some
        && optional_text(v, "description"@) is Some && optional_text(v, "treeId"@) is Some
        && optional_text(v, "linkType"@) is Some {
        Some(
            EdgeModel {
                source: required_text(v, "source"@).unwrap(),
                target: required_text(v, "target"@).unwrap(),
                is_trunk: optional_flag(v, "isTrunk"@).unwrap(),
                label: optional_text(v, "label"@).unwrap(),
                edge_type: optional_text(v, "type"@).unwrap(),
                status: optional_text(v, "status"@).unwrap(),
                description: optional_text(v, "description"@).unwrap(),
                tree_id: optional_text(v, "treeId"@).unwrap(),
                link_type: optional_text(v, "linkType"@).unwrap(),
            },
        )
    } else {
        None
    }
}

/// The sub-tree that a JSON value stands for: `rootNodeId` is required.
pub open spec fn tree_of(v: JsonModel) -> Option<TreeDescriptorModel> {
    if required_text(v, "rootNodeId"@) is Some && optional_text(v, "label"@) is Some
        && optional_text(v, "description"@) is Some {
        Some(
            TreeDescriptorModel {
                root_node_id: required_text(v, "rootNodeId"@).unwrap(),
                label: optional_text(v, "label"@).unwrap(),
                description: optional_text(v, "description"@).unwrap(),
            },
        )
    } else {
        None
    }
}

/// The embedding reference that a JSON value stands for: `format` is required.
pub open spec fn embedding_of(v: JsonModel) -> Option<EmbeddingRefModel> {
    if required_text(v, "format"@) is Some && optional_text(v, "path"@) is Some {
        Some(
            EmbeddingRefModel {
                format: required_text(v, "format"@).unwrap(),
                path: optional_text(v, "path"@).unwrap(),
            },
        )
    } else {
        None
    }
}

/// The nodes that `items` stand for, which must all be nodes.
pub open spec fn nodes_of(items: Seq<JsonModel>) -> Option<Seq<NodeModel>>
    decreases items.len(),
{
    if items.len() == 0 {
        Some(Seq::empty())
    } else {
        match (nodes_of(items.drop_last()), node_of(items.last())) {
            (Some(rest), Some(n)) => Some(rest.push(n)),
            _ => None,
        }
    }
}

/// The edges that `items` stand for, which must all be edges.
pub open spec fn edges_of(items: Seq<JsonModel>) -> Option<Seq<EdgeModel>>
    decreases items.len(),
{
    if items.len() == 0 {
        Some(Seq::empty())
    } else {
        match (edges_of(items.drop_last()), edge_of(items.last())) {
            (Some(rest), Some(e)) => Some(rest.push(e)),
            _ => None,
        }
    }
}

/// The named sub-trees that the members `entries` stand for, which must all be
/// sub-trees.
pub open spec fn trees_of(entries: Seq<MemberModel>) -> Option<
    Seq<(Seq<char>, TreeDescriptorModel)>,
>
    decreases entries.len(),
{
    if entries.len() == 0 {
        Some(Seq::empty())
    } else {
        match (trees_of(entries.drop_last()), tree_of(entries.last().value)) {
            (Some(rest), Some(t)) => Some(rest.push((entries.last().name, t))),
            _ => None,
        }
    }
}

/// The sub-trees of the member `key`, which may be missing or null and must
/// otherwise be an object of sub-trees.
pub open spec fn optional_trees(v: JsonModel, key: Seq<char>) -> Option<
    Option<Seq<(Seq<char>, TreeDescriptorModel)>>,
> {
    match v.member(key) {
        None => Some(None),
        Some(JsonModel::Null) => Some(None),
        Some(JsonModel::Object(entries)) => match trees_of(entries) {
            Some(trees) => Some(Some(trees)),
            None => None,
        },
        Some(_) => None,
    }
}

/// The embedding reference of the member `key`, which may be missing or null.
pub open spec fn optional_embedding(v: JsonModel, key: Seq<char>) -> Option<
    Option<EmbeddingRefModel>,
> {
    match v.member(key) {
        None => Some(None),
        Some(JsonModel::Null) => Some(None),
        Some(m) => match embedding_of(m) {
            Some(e) => Some(Some(e)),
            None => None,
        },
    }
}

/// The nodes of the member `key`, which must be there and be an array of nodes.
pub open spec fn required_nodes(v: JsonModel, key: Seq<char>) -> Option<Seq<NodeModel>> {
    match required_items(v, key) {
        Some(items) => nodes_of(items),
        None => None,
    }
}

/// The edges of the member `key`, which must be there and be an array of edges.
pub open spec fn required_edges(v: JsonModel, key: Seq<char>) -> Option<Seq<EdgeModel>> {
    match required_items(v, key) {
        Some(items) => edges_of(items),
        None => None,
    }
}

/// The document that a JSON value stands for. `formatVersion`, `nodes` and
/// `edges` are required; a member that is missing or null counts as absent;
/// members with other names are passed over.
pub open spec fn document_of(v: JsonModel) -> Option<DocumentModel> {
    if required_text(v, "formatVersion"@) is Some && optional_text(v, "rootNodeId"@) is Some
        && required_nodes(v, "nodes"@) is Some && required_edges(v, "edges"@) is Some
        && optional_text(v, "minReaderVersion"@) is Some && optional_text_list(v, "features"@)
        is Some && optional_trees(v, "trees"@) is Some && optional_embedding(v, "embeddingRef"@)
        is Some {
        Some(
            DocumentModel {
                format_version: required_text(v, "formatVersion"@).unwrap(),
                root_node_id: optional_text(v, "rootNodeId"@).unwrap(),
                nodes: required_nodes(v, "nodes"@).unwrap(),
                edges: required_edges(v, "edges"@).unwrap(),
                min_reader_version: optional_text(v, "minReaderVersion"@).unwrap(),
                features: optional_text_list(v, "features"@).unwrap(),
                metadata: optional_value(v, "metadata"@),
                trees: optional_trees(v, "trees"@).unwrap(),
                embedding_ref: optional_embedding(v, "embeddingRef"@).unwrap(),
            },
        )
    } else {
        None
    }
}

/// The sub-trees that members stand for have the names of the members.
pub proof fn lemma_tree_names(entries: Seq<MemberModel>)
    requires
        trees_of(entries) is Some,
    ensures
        trees_of(entries).unwrap().len() == entries.len(),
        forall|i: int|
            0 <= i < entries.len() ==> (#[trigger] trees_of(entries).unwrap()[i]).0
                == entries[i].name,
    decreases entries.len(),
{
    if entries.len() > 0 {
        lemma_tree_names(entries.drop_last());
    }
}

/// In a document that a JSON value without repeated names stands for, each
/// of the named sub-trees has a name of its own.
pub proof fn lemma_read_tree_names(v: JsonModel)
    requires
        v.unique_names(),
        document_of(v) is Some,
    ensures
        document_of(v).unwrap().tree_names_distinct(),
{
    match v.member("trees"@) {
        Some(JsonModel::Object(entries)) => {
            let members = v->Object_0;
            lemma_lookup_found(members, "trees"@);
            let at = choose|i: int|
                0 <= i < members.len() && (#[trigger] members[i]).name == "trees"@
                    && members[i].value == lookup(members, "trees"@).unwrap();
            assert(members[at].value.unique_names());
            lemma_tree_names(entries);
            let trees = trees_of(entries).unwrap();
            assert(names_distinct(entries));
            assert forall|i: int, j: int| 0 <= i < j < trees.len() implies (#[trigger] trees[i]).0
                != (#[trigger] trees[j]).0 by {
                assert(entries[i].name != entries[j].name);
            }
        },
        _ => {},
    }
}

/// Reads a required string member.
fn read_text(v: &JsonValue, key: &str) -> (r: Option<String>)
    ensures
        opt_text(r) == required_text(v@, key@),
{
    match v.get(key) {
        Some(m) => match m.as_str() {
            Some(s) => Some(s.clone()),
            None => None,
        },
        None => None,
    }
}

/// Reads an optional string member.
fn read_optional_text(v: &JsonValue, key: &str) -> (r: Option<Option<String>>)
    ensures
        match r {
            Some(t) => optional_text(v@, key@) == Some(opt_text(t)),
            None => optional_text(v@, key@) is None,
        },
{
    match v.get(key) {
        None => Some(None),
        Some(JsonValue::Null) => Some(None),
        Some(JsonValue::String(s)) => Some(Some(s.clone())),
        Some(_) => None,
    }
}

/// Reads an optional boolean member.
fn read_optional_flag(v: &JsonValue, key: &str) -> (r: Option<Option<bool>>)
    ensures
        r == optional_flag(v@, key@),
{
    match v.get(key) {
        None => Some(None),
        Some(JsonValue::Null) => Some(None),
        Some(JsonValue::Bool(b)) => Some(Some(*b)),
        Some(_) => None,
    }
}

/// Reads an optional member of any type.
fn read_optional_value(v: &JsonValue, key: &str) -> (r: Option<JsonValue>)
    ensures
        crate::types::opt_json(r) == optional_value(v@, key@),
{
    match v.get(key) {
        None => None,
        Some(JsonValue::Null) => None,
        Some(m) => Some(m.clone()),
    }
}

/// Reads a list of strings.
fn read_text_list(items: &Vec<JsonValue>) -> (r: Option<Vec<String>>)
    ensures
        opt_texts(r) == text_list(JsonValue::Array(*items)@->Array_0),
{
    let ghost all = JsonValue::Array(*items)@->Array_0;
    proof {
        lemma_array_view(*items);
    }
    let mut list: Vec<String> = Vec::new();
    let mut i: usize = 0;
    assert(texts(list@) =~= Seq::<Seq<char>>::empty());
    assert(all.take(0) =~= Seq::<JsonModel>::empty());
    while i < items.len()
        invariant
            i <= items.len(),
            all == JsonValue::Array(*items)@->Array_0,
            all.len() == items.len(),
            forall|j: int| 0 <= j < all.len() ==> all[j] == items@[j]@,
            text_list(all.take(i as int)) == Some(texts(list@)),
        decreases items.len() - i,
    {
        proof {
            assert(all.take(i + 1).drop_last() =~= all.take(i as int));
            assert(all.take(i + 1).last() == items@[i as int]@);
        }
        match items[i].as_str() {
            Some(s) => {
                let ghost shown = texts(list@);
                list.push(s.clone());
                assert(texts(list@) =~= shown.push(s@));
            },
            None => {
                proof {
                    lemma_text_list_fails(all, i as int);
                }
                return None;
            },
        }
        i = i + 1;
    }
    assert(all.take(items.len() as int) =~= all);
    Some(list)
}

/// A list with an item that is no string has no texts.
proof fn lemma_text_list_fails(items: Seq<JsonModel>, at: int)
    requires
        0 <= at < items.len(),
        items[at].as_text() is None,
    ensures
        text_list(items) is None,
    decreases items.len(),
{
    if at < items.len() - 1 {
        lemma_text_list_fails(items.drop_last(), at);
    }
}

/// Reads an optional member that lists strings.
fn read_optional_text_list(v: &JsonValue, key: &str) -> (r: Option<Option<Vec<String>>>)
    ensures
        match r {
            Some(t) => optional_text_list(v@, key@) == Some(opt_texts(t)),
            None => optional_text_list(v@, key@) is None,
        },
{
    match v.get(key) {
        None => Some(None),
        Some(JsonValue::Null) => Some(None),
        Some(JsonValue::Array(items)) => {
            proof {
                lemma_array_view(*items);
            }
            match read_text_list(items) {
                Some(list) => Some(Some(list)),
                None => None,
            }
        },
        Some(_) => None,
    }
}

/// Reads a node.
pub fn node_from_json(v: &JsonValue) -> (r: Option<Node>)
    ensures
        match r {
            Some(n) => node_of(v@) == Some(n@),
            None => node_of(v@) is None,
        },
{
    let id = match read_text(v, "id") {
        Some(x) => x,
        None => {
            return None;
        },
    };
    let content = match read_text(v, "content") {
        Some(x) => x,
        None => {
            return None;
        },
    };
    let metadata = read_optional_value(v, "metadata");
    let status = match read_optional_text(v, "status") {
        Some(x) => x,
        None => {
            return None;
        },
    };
    let tree_ids = match read_optional_text_list(v, "treeIds") {
        Some(x) => x,
        None => {
            return None;
        },
    };
    Some(Node { id, content, metadata, status, tree_ids })
}

/// Reads an edge.
pub fn edge_from_json(v: &JsonValue) -> (r: Option<Edge>)
    ensures
        match r {
            Some(e) => edge_of(v@) == Some(e@),
            None => edge_of(v@) is None,
        },
{
    let source = match read_text(v, "source") {
        Some(x) => x,
        None => {
            return None;
        },
    };
    let target = match read_text(v, "target") {
        Some(x) => x,
        None => {
            return None;
        },
    };
    let is_trunk = match read_optional_flag(v, "isTrunk") {
        Some(x) => x,
        None => {
            return None;
        },
    };
    let label = match read_optional_text(v, "label") {
        Some(x) => x,
        None => {
            return None;
        },
    };
    let edge_type = match read_optional_text(v, "type") {
        Some(x) => x,
        None => {
            return None;
        },
    };
    let status = match read_optional_text(v, "status") {
        Some(x) => x,
        None => {
            return None;
        },
    };
    let description = match read_optional_text(v, "description") {
        Some(x) => x,
        None => {
            return None;
        },
    };
    let tree_id = match read_optional_text(v, "treeId") {
        Some(x) => x,
        None => {
            return None;
        },
    };
    let link_type = match read_optional_text(v, "linkType") {
        Some(x) => x,
        None => {
            return None;
        },
    };
    Some(
        Edge { source, target, is_trunk, label, edge_type, status, description, tree_id, link_type },
    )
}

/// Reads a named sub-tree.
pub fn tree_from_json(v: &JsonValue) -> (r: Option<TreeDescriptor>)
    ensures
        match r {
            Some(t) => tree_of(v@) == Some(t@),
            None => tree_of(v@) is None,
        },
{
    let root_node_id = match read_text(v, "rootNodeId") {
        Some(x) => x,
        None => {
            return None;
        },
    };
    let label = match read_optional_text(v, "label") {
        Some(x) => x,
        None => {
            return None;
        },
    };
    let description = match read_optional_text(v, "description") {
        Some(x) => x,
        None => {
            return None;
        },
    };
    Some(TreeDescriptor { root_node_id, label, description })
}

/// Reads an embedding reference.
pub fn embedding_from_json(v: &JsonValue) -> (r: Option<EmbeddingRef>)
    ensures
        match r {
            Some(e) => embedding_of(v@) == Some(e@),
            None => embedding_of(v@) is None,
        },
{
    let format = match read_text(v, "format") {
        Some(x) => x,
        None => {
            return None;
        },
    };
    let path = match read_optional_text(v, "path") {
        Some(x) => x,
        None => {
            return None;
        },
    };
    Some(EmbeddingRef { format, path })
}

/// A list with an item that is no node has no nodes.
proof fn lemma_nodes_fail(items: Seq<JsonModel>, at: int)
    requires
        0 <= at < items.len(),
        node_of(items[at]) is None,
    ensures
        nodes_of(items) is None,
    decreases items.len(),
{
    if at < items.len() - 1 {
        lemma_nodes_fail(items.drop_last(), at);
    }
}

/// A list with an item that is no edge has no edges.
proof fn lemma_edges_fail(items: Seq<JsonModel>, at: int)
    requires
        0 <= at < items.len(),
        edge_of(items[at]) is None,
    ensures
        edges_of(items) is None,
    decreases items.len(),
{
    if at < items.len() - 1 {
        lemma_edges_fail(items.drop_last(), at);
    }
}

/// Members with a value that is no sub-tree have no sub-trees.
proof fn lemma_trees_fail(entries: Seq<MemberModel>, at: int)
    requires
        0 <= at < entries.len(),
        tree_of(entries[at].value) is None,
    ensures
        trees_of(entries) is None,
    decreases entries.len(),
{
    if at < entries.len() - 1 {
        lemma_trees_fail(entries.drop_last(), at);
    }
}

/// Reads the required member `key` as a list of nodes.
fn read_nodes(v: &JsonValue, key: &str) -> (r: Option<Vec<Node>>)
    ensures
        match r {
            Some(nodes) => required_nodes(v@, key@) == Some(node_models(nodes@)),
            None => required_nodes(v@, key@) is None,
        },
{
    let items = match v.get(key) {
        Some(JsonValue::Array(items)) => items,
        _ => {
            return None;
        },
    };
    let ghost all = JsonValue::Array(*items)@->Array_0;
    proof {
        lemma_array_view(*items);
    }
    let mut nodes: Vec<Node> = Vec::new();
    let mut i: usize = 0;
    assert(node_models(nodes@) =~= Seq::<NodeModel>::empty());
    assert(all.take(0) =~= Seq::<JsonModel>::empty());
    while i < items.len()
        invariant
            i <= items.len(),
            all.len() == items.len(),
            required_items(v@, key@) == Some(all),
            forall|j: int| 0 <= j < all.len() ==> all[j] == items@[j]@,
            nodes_of(all.take(i as int)) == Some(node_models(nodes@)),
        decreases items.len() - i,
    {
        proof {
            assert(all.take(i + 1).drop_last() =~= all.take(i as int));
            assert(all.take(i + 1).last() == items@[i as int]@);
        }
        match node_from_json(&items[i]) {
            Some(n) => {
                let ghost shown = node_models(nodes@);
                nodes.push(n);
                assert(node_models(nodes@) =~= shown.push(n@));
            },
            None => {
                proof {
                    lemma_nodes_fail(all, i as int);
                }
                return None;
            },
        }
        i = i + 1;
    }
    assert(all.take(items.len() as int) =~= all);
    Some(nodes)
}

/// Reads the required member `key` as a list of edges.
fn read_edges(v: &JsonValue, key: &str) -> (r: Option<Vec<Edge>>)
    ensures
        match r {
            Some(edges) => required_edges(v@, key@) == Some(edge_models(edges@)),
            None => required_edges(v@, key@) is None,
        },
{
    let items = match v.get(key) {
        Some(JsonValue::Array(items)) => items,
        _ => {
            return None;
        },
    };
    let ghost all = JsonValue::Array(*items)@->Array_0;
    proof {
        lemma_array_view(*items);
    }
    let mut edges: Vec<Edge> = Vec::new();
    let mut i: usize = 0;
    assert(edge_models(edges@) =~= Seq::<EdgeModel>::empty());
    assert(all.take(0) =~= Seq::<JsonModel>::empty());
    while i < items.len()
        invariant
            i <= items.len(),
            all.len() == items.len(),
            required_items(v@, key@) == Some(all),
            forall|j: int| 0 <= j < all.len() ==> all[j] == items@[j]@,
            edges_of(all.take(i as int)) == Some(edge_models(edges@)),
        decreases items.len() - i,
    {
        proof {
            assert(all.take(i + 1).drop_last() =~= all.take(i as int));
            assert(all.take(i + 1).last() == items@[i as int]@);
        }
        match edge_from_json(&items[i]) {
            Some(e) => {
                let ghost shown = edge_models(edges@);
                edges.push(e);
                assert(edge_models(edges@) =~= shown.push(e@));
            },
            None => {
                proof {
                    lemma_edges_fail(all, i as int);
                }
                return None;
            },
        }
        i = i + 1;
    }
    assert(all.take(items.len() as int) =~= all);
    Some(edges)
}

/// Reads the optional member `key` as named sub-trees.
fn read_optional_trees(v: &JsonValue, key: &str) -> (r: Option<
    Option<Vec<(String, TreeDescriptor)>>,
>)
    ensures
        match r {
            Some(Some(trees)) => optional_trees(v@, key@) == Some(Some(tree_models(trees@))),
            Some(None) => optional_trees(v@, key@) == Some(
                None::<Seq<(Seq<char>, TreeDescriptorModel)>>,
            ),
            None => optional_trees(v@, key@) is None,
        },
{
    let entries = match v.get(key) {
        None => {
            return Some(None);
        },
        Some(JsonValue::Null) => {
            return Some(None);
        },
        Some(JsonValue::Object(entries)) => entries,
        Some(_) => {
            return None;
        },
    };
    let ghost all = JsonValue::Object(*entries)@->Object_0;
    proof {
        lemma_object_view(*entries);
    }
    let mut trees: Vec<(String, TreeDescriptor)> = Vec::new();
    let mut i: usize = 0;
    assert(tree_models(trees@) =~= Seq::<(Seq<char>, TreeDescriptorModel)>::empty());
    assert(all.take(0) =~= Seq::<MemberModel>::empty());
    while i < entries.len()
        invariant
            i <= entries.len(),
            all.len() == entries.len(),
            v@.member(key@) == Some(JsonModel::Object(all)),
            forall|j: int|
                0 <= j < all.len() ==> all[j] == (MemberModel {
                    name: entries@[j].name@,
                    value: entries@[j].value@,
                }),
            trees_of(all.take(i as int)) == Some(tree_models(trees@)),
        decreases entries.len() - i,
    {
        proof {
            assert(all.take(i + 1).drop_last() =~= all.take(i as int));
            assert(all.take(i + 1).last() == all[i as int]);
        }
        match tree_from_json(&entries[i].value) {
            Some(t) => {
                let ghost shown = tree_models(trees@);
                let name = entries[i].name.clone();
                trees.push((name, t));
                assert(tree_models(trees@) =~= shown.push((name@, t@)));
            },
            None => {
                proof {
                    lemma_trees_fail(all, i as int);
                }
                return None;
            },
        }
        i = i + 1;
    }
    assert(all.take(entries.len() as int) =~= all);
    Some(Some(trees))
}

/// Reads the optional member `key` as an embedding reference.
fn read_optional_embedding(v: &JsonValue, key: &str) -> (r: Option<Option<EmbeddingRef>>)
    ensures
        match r {
            Some(Some(e)) => optional_embedding(v@, key@) == Some(Some(e@)),
            Some(None) => optional_embedding(v@, key@) == Some(None::<EmbeddingRefModel>),
            None => optional_embedding(v@, key@) is None,
        },
{
    match v.get(key) {
        None => Some(None),
        Some(JsonValue::Null) => Some(None),
        Some(m) => match embedding_from_json(m) {
            Some(e) => Some(Some(e)),
            None => None,
        },
    }
}

/// The name of the first field, in the order of the fields of a document,
/// that keeps a JSON value from standing for a document: a required field
/// that is missing, or a field whose value has the wrong shape. Empty for a
/// value that stands for a document.
pub open spec fn first_fault(v: JsonModel) -> Seq<char> {
    if required_text(v, "formatVersion"@) is None {
        "formatVersion"@
    } else if optional_text(v, "rootNodeId"@) is None {
        "rootNodeId"@
    } else if required_nodes(v, "nodes"@) is None {
        "nodes"@
    } else if required_edges(v, "edges"@) is None {
        "edges"@
    } else if optional_text(v, "minReaderVersion"@) is None {
        "minReaderVersion"@
    } else if optional_text_list(v, "features"@) is None {
        "features"@
    } else if optional_trees(v, "trees"@) is None {
        "trees"@
    } else if optional_embedding(v, "embeddingRef"@) is None {
        "embeddingRef"@
    } else {
        Seq::empty()
    }
}

/// Reads a document from a JSON value. Where the value stands for none, the
/// name of the first field that is missing or has the wrong shape is returned.
pub fn document_from_json(v: &JsonValue) -> (r: Result<TreeDocument, String>)
    ensures
        match r {
            Ok(doc) => document_of(v@) == Some(doc@),
            Err(field) => document_of(v@) is None && field@ == first_fault(v@),
        },
{
    let format_version = match read_text(v, "formatVersion") {
        Some(x) => x,
        None => {
            return Err(String::from_str("formatVersion"));
        },
    };
    let root_node_id = match read_optional_text(v, "rootNodeId") {
        Some(x) => x,
        None => {
            return Err(String::from_str("rootNodeId"));
        },
    };
    let nodes = match read_nodes(v, "nodes") {
        Some(x) => x,
        None => {
            return Err(String::from_str("nodes"));
        },
    };
    let edges = match read_edges(v, "edges") {
        Some(x) => x,
        None => {
            return Err(String::from_str("edges"));
        },
    };
    let min_reader_version = match read_optional_text(v, "minReaderVersion") {
        Some(x) => x,
        None => {
            return Err(String::from_str("minReaderVersion"));
        },
    };
    let features = match read_optional_text_list(v, "features") {
        Some(x) => x,
        None => {
            return Err(String::from_str("features"));
        },
    };
    let metadata = read_optional_value(v, "metadata");
    let trees = match read_optional_trees(v, "trees") {
        Some(x) => x,
        None => {
            return Err(String::from_str("trees"));
        },
    };
    let embedding_ref = match read_optional_embedding(v, "embeddingRef") {
        Some(x) => x,
        None => {
            return Err(String::from_str("embeddingRef"));
        },
    };
    Ok(
        TreeDocument {
            format_version,
            root_node_id,
            nodes,
            edges,
            min_reader_version,
            features,
            metadata,
            trees,
            embedding_ref,
        },
    )
}

/// The views of a sequence of members.
pub open spec fn member_models(v: Seq<Member>) -> Seq<MemberModel> {
    v.map_values(|m: Member| MemberModel { name: m.name@, value: m.value@ })
}

/// The member written for a field that is there, and nothing for one that is not.
pub open spec fn optional_field(name: Seq<char>, value: Option<JsonModel>) -> Seq<MemberModel> {
    match value {
        Some(v) => seq![MemberModel { name, value: v }],
        None => Seq::empty(),
    }
}

/// The members written for `fields`, in their order: one for each field that
/// has a value.
pub open spec fn record(fields: Seq<(Seq<char>, Option<JsonModel>)>) -> Seq<MemberModel>
    decreases fields.len(),
{
    if fields.len() == 0 {
        Seq::empty()
    } else {
        record(fields.drop_last()) + optional_field(fields.last().0, fields.last().1)
    }
}

/// The JSON value written for an optional text.
pub open spec fn optional_text_json(o: Option<Seq<char>>) -> Option<JsonModel> {
    match o {
        Some(s) => Some(JsonModel::String(s)),
        None => None,
    }
}

/// The JSON value written for a list of texts.
pub open spec fn text_list_json(list: Seq<Seq<char>>) -> JsonModel {
    JsonModel::Array(list.map_values(|s: Seq<char>| JsonModel::String(s)))
}

/// The JSON value written for an optional list of texts.
pub open spec fn optional_text_list_json(o: Option<Seq<Seq<char>>>) -> Option<JsonModel> {
    match o {
        Some(list) => Some(text_list_json(list)),
        None => None,
    }
}

/// The JSON value written for an optional truth value.
pub open spec fn optional_flag_json(o: Option<bool>) -> Option<JsonModel> {
    match o {
        Some(b) => Some(JsonModel::Bool(b)),
        None => None,
    }
}

/// The fields of a node on the wire.
pub open spec fn node_fields(n: NodeModel) -> Seq<(Seq<char>, Option<JsonModel>)> {
    seq![
        ("id"@, Some(JsonModel::String(n.id))),
        ("content"@, Some(JsonModel::String(n.content))),
        ("metadata"@, n.metadata),
        ("status"@, optional_text_json(n.status)),
        ("treeIds"@, optional_text_list_json(n.tree_ids)),
    ]
}

/// The JSON value written for a node.
pub open spec fn node_json(n: NodeModel) -> JsonModel {
    JsonModel::Object(record(node_fields(n)))
}

/// The fields of an edge on the wire.
pub open spec fn edge_fields(e: EdgeModel) -> Seq<(Seq<char>, Option<JsonModel>)> {
    seq![
        ("source"@, Some(JsonModel::String(e.source))),
        ("target"@, Some(JsonModel::String(e.target))),
        ("isTrunk"@, optional_flag_json(e.is_trunk)),
        ("label"@, optional_text_json(e.label)),
        ("type"@, optional_text_json(e.edge_type)),
        ("status"@, optional_text_json(e.status)),
        ("description"@, optional_text_json(e.description)),
        ("treeId"@, optional_text_json(e.tree_id)),
        ("linkType"@, optional_text_json(e.link_type)),
    ]
}

/// The JSON value written for an edge.
pub open spec fn edge_json(e: EdgeModel) -> JsonModel {
    JsonModel::Object(record(edge_fields(e)))
}

/// The fields of a sub-tree on the wire.
pub open spec fn tree_fields(t: TreeDescriptorModel) -> Seq<(Seq<char>, Option<JsonModel>)> {
    seq![
        ("rootNodeId"@, Some(JsonModel::String(t.root_node_id))),
        ("label"@, optional_text_json(t.label)),
        ("description"@, optional_text_json(t.description)),
    ]
}

/// The JSON value written for a sub-tree.
pub open spec fn tree_json(t: TreeDescriptorModel) -> JsonModel {
    JsonModel::Object(record(tree_fields(t)))
}

/// The fields of an embedding reference on the wire.
pub open spec fn embedding_fields(e: EmbeddingRefModel) -> Seq<(Seq<char>, Option<JsonModel>)> {
    seq![("format"@, Some(JsonModel::String(e.format))), ("path"@, optional_text_json(e.path))]
}

/// The JSON value written for an embedding reference.
pub open spec fn embedding_json(e: EmbeddingRefModel) -> JsonModel {
    JsonModel::Object(record(embedding_fields(e)))
}

/// The JSON value written for the named sub-trees of a document.
pub open spec fn trees_json(trees: Seq<(Seq<char>, TreeDescriptorModel)>) -> JsonModel {
    JsonModel::Object(
        trees.map_values(
            |t: (Seq<char>, TreeDescriptorModel)| MemberModel { name: t.0, value: tree_json(t.1) },
        ),
    )
}

/// The fields of a document on the wire.
pub open spec fn document_fields(d: DocumentModel) -> Seq<(Seq<char>, Option<JsonModel>)> {
    seq![
        ("formatVersion"@, Some(JsonModel::String(d.format_version))),
        ("rootNodeId"@, optional_text_json(d.root_node_id)),
        ("nodes"@, Some(JsonModel::Array(d.nodes.map_values(|n: NodeModel| node_json(n))))),
        ("edges"@, Some(JsonModel::Array(d.edges.map_values(|e: EdgeModel| edge_json(e))))),
        ("minReaderVersion"@, optional_text_json(d.min_reader_version)),
        ("features"@, optional_text_list_json(d.features)),
        ("metadata"@, d.metadata),
        (
            "trees"@,
            match d.trees {
                Some(trees) => Some(trees_json(trees)),
                None => None,
            },
        ),
        (
            "embeddingRef"@,
            match d.embedding_ref {
                Some(e) => Some(embedding_json(e)),
                None => None,
            },
        ),
    ]
}

/// The JSON value written for a document: an object with one member for each
/// field that has a value, under its name on the wire.
pub open spec fn document_json(d: DocumentModel) -> JsonModel {
    JsonModel::Object(record(document_fields(d)))
}

/// Makes an object of `members`.
fn object_of(members: Vec<Member>) -> (r: JsonValue)
    ensures
        r@ == JsonModel::Object(member_models(members@)),
{
    proof {
        lemma_object_view(members);
    }
    let r = JsonValue::Object(members);
    assert(r@->Object_0 =~= member_models(members@));
    r
}

/// Makes an array of `items`.
fn array_of(items: Vec<JsonValue>) -> (r: JsonValue)
    ensures
        r@ == JsonModel::Array(items@.map_values(|v: JsonValue| v@)),
{
    proof {
        lemma_array_view(items);
    }
    let r = JsonValue::Array(items);
    assert(r@->Array_0 =~= items@.map_values(|v: JsonValue| v@));
    r
}

/// Writes the field `name` behind `members` where it has a value.
fn push_field(
    members: &mut Vec<Member>,
    name: &str,
    value: Option<JsonValue>,
    Ghost(fields): Ghost<Seq<(Seq<char>, Option<JsonModel>)>>,
    Ghost(at): Ghost<int>,
)
    requires
        0 <= at < fields.len(),
        fields[at] == (name@, crate::types::opt_json(value)),
        member_models(old(members)@) == record(fields.take(at)),
    ensures
        member_models(final(members)@) == record(fields.take(at + 1)),
{
    proof {
        assert(fields.take(at + 1).drop_last() =~= fields.take(at));
        assert(fields.take(at + 1).last() == fields[at]);
    }
    match value {
        Some(v) => {
            let ghost before = member_models(members@);
            let member = Member { name: String::from_str(name), value: v };
            members.push(member);
            assert(member_models(members@) =~= before + optional_field(name@, Some(v@)));
        },
        None => {
            assert(member_models(members@) =~= member_models(members@) + optional_field(
                name@,
                None,
            ));
        },
    }
}

/// The JSON value of an optional text.
fn json_of_optional_text(o: &Option<String>) -> (r: Option<JsonValue>)
    ensures
        crate::types::opt_json(r) == optional_text_json(opt_text(*o)),
{
    match o {
        Some(s) => Some(JsonValue::String(s.clone())),
        None => None,
    }
}

/// The JSON value of a list of texts.
fn json_of_text_list(list: &Vec<String>) -> (r: JsonValue)
    ensures
        r@ == text_list_json(texts(list@)),
{
    let mut items: Vec<JsonValue> = Vec::new();
    let mut i: usize = 0;
    while i < list.len()
        invariant
            i <= list.len(),
            items@.len() == i,
            forall|j: int| 0 <= j < i ==> items@[j]@ == JsonModel::String(list@[j]@),
        decreases list.len() - i,
    {
        items.push(JsonValue::String(list[i].clone()));
        i = i + 1;
    }
    let r = array_of(items);
    assert(r@->Array_0 =~= text_list_json(texts(list@))->Array_0);
    r
}

/// The JSON value of an optional list of texts.
fn json_of_optional_text_list(o: &Option<Vec<String>>) -> (r: Option<JsonValue>)
    ensures
        crate::types::opt_json(r) == optional_text_list_json(opt_texts(*o)),
{
    match o {
        Some(list) => Some(json_of_text_list(list)),
        None => None,
    }
}

/// Writes a node as a JSON value.
pub fn node_to_json(n: &Node) -> (r: JsonValue)
    ensures
        r@ == node_json(n@),
{
    let ghost fields = node_fields(n@);
    let mut members: Vec<Member> = Vec::new();
    assert(member_models(members@) =~= record(fields.take(0)));
    push_field(&mut members, "id", Some(JsonValue::String(n.id.clone())), Ghost(fields), Ghost(0));
    push_field(
        &mut members,
        "content",
        Some(JsonValue::String(n.content.clone())),
        Ghost(fields),
        Ghost(1),
    );
    push_field(&mut members, "metadata", n.metadata.clone(), Ghost(fields), Ghost(2));
    push_field(&mut members, "status", json_of_optional_text(&n.status), Ghost(fields), Ghost(3));
    push_field(
        &mut members,
        "treeIds",
        json_of_optional_text_list(&n.tree_ids),
        Ghost(fields),
        Ghost(4),
    );
    assert(fields.take(5) =~= fields);
    object_of(members)
}

/// Writes an edge as a JSON value.
pub fn edge_to_json(e: &Edge) -> (r: JsonValue)
    ensures
        r@ == edge_json(e@),
{
    let ghost fields = edge_fields(e@);
    let mut members: Vec<Member> = Vec::new();
    assert(member_models(members@) =~= record(fields.take(0)));
    push_field(
        &mut members,
        "source",
        Some(JsonValue::String(e.source.clone())),
        Ghost(fields),
        Ghost(0),
    );
    push_field(
        &mut members,
        "target",
        Some(JsonValue::String(e.target.clone())),
        Ghost(fields),
        Ghost(1),
    );
    let flag = match e.is_trunk {
        Some(b) => Some(JsonValue::Bool(b)),
        None => None,
    };
    push_field(&mut members, "isTrunk", flag, Ghost(fields), Ghost(2));
    push_field(&mut members, "label", json_of_optional_text(&e.label), Ghost(fields), Ghost(3));
    push_field(&mut members, "type", json_of_optional_text(&e.edge_type), Ghost(fields), Ghost(4));
    push_field(&mut members, "status", json_of_optional_text(&e.status), Ghost(fields), Ghost(5));
    push_field(
        &mut members,
        "description",
        json_of_optional_text(&e.description),
        Ghost(fields),
        Ghost(6),
    );
    push_field(&mut members, "treeId", json_of_optional_text(&e.tree_id), Ghost(fields), Ghost(7));
    push_field(
        &mut members,
        "linkType",
        json_of_optional_text(&e.link_type),
        Ghost(fields),
        Ghost(8),
    );
    assert(fields.take(9) =~= fields);
    object_of(members)
}

/// Writes a sub-tree as a JSON value.
pub fn tree_to_json(t: &TreeDescriptor) -> (r: JsonValue)
    ensures
        r@ == tree_json(t@),
{
    let ghost fields = tree_fields(t@);
    let mut members: Vec<Member> = Vec::new();
    assert(member_models(members@) =~= record(fields.take(0)));
    push_field(
        &mut members,
        "rootNodeId",
        Some(JsonValue::String(t.root_node_id.clone())),
        Ghost(fields),
        Ghost(0),
    );
    push_field(&mut members, "label", json_of_optional_text(&t.label), Ghost(fields), Ghost(1));
    push_field(
        &mut members,
        "description",
        json_of_optional_text(&t.description),
        Ghost(fields),
        Ghost(2),
    );
    assert(fields.take(3) =~= fields);
    object_of(members)
}

/// Writes an embedding reference as a JSON value.
pub fn embedding_to_json(e: &EmbeddingRef) -> (r: JsonValue)
    ensures
        r@ == embedding_json(e@),
{
    let ghost fields = embedding_fields(e@);
    let mut members: Vec<Member> = Vec::new();
    assert(member_models(members@) =~= record(fields.take(0)));
    push_field(
        &mut members,
        "format",
        Some(JsonValue::String(e.format.clone())),
        Ghost(fields),
        Ghost(0),
    );
    push_field(&mut members, "path", json_of_optional_text(&e.path), Ghost(fields), Ghost(1));
    assert(fields.take(2) =~= fields);
    object_of(members)
}

/// Writes a list of nodes as a JSON array.
fn nodes_to_json(nodes: &Vec<Node>) -> (r: JsonValue)
    ensures
        r@ == JsonModel::Array(node_models(nodes@).map_values(|n: NodeModel| node_json(n))),
{
    let mut items: Vec<JsonValue> = Vec::new();
    let mut i: usize = 0;
    while i < nodes.len()
        invariant
            i <= nodes.len(),
            items@.len() == i,
            forall|j: int| 0 <= j < i ==> items@[j]@ == node_json(nodes@[j]@),
        decreases nodes.len() - i,
    {
        items.push(node_to_json(&nodes[i]));
        i = i + 1;
    }
    let r = array_of(items);
    assert(r@->Array_0 =~= node_models(nodes@).map_values(|n: NodeModel| node_json(n)));
    r
}

/// Writes a list of edges as a JSON array.
fn edges_to_json(edges: &Vec<Edge>) -> (r: JsonValue)
    ensures
        r@ == JsonModel::Array(edge_models(edges@).map_values(|e: EdgeModel| edge_json(e))),
{
    let mut items: Vec<JsonValue> = Vec::new();
    let mut i: usize = 0;
    while i < edges.len()
        invariant
            i <= edges.len(),
            items@.len() == i,
            forall|j: int| 0 <= j < i ==> items@[j]@ == edge_json(edges@[j]@),
        decreases edges.len() - i,
    {
        items.push(edge_to_json(&edges[i]));
        i = i + 1;
    }
    let r = array_of(items);
    assert(r@->Array_0 =~= edge_models(edges@).map_values(|e: EdgeModel| edge_json(e)));
    r
}

/// Writes the named sub-trees of a document as a JSON object.
fn trees_to_json(trees: &Vec<(String, TreeDescriptor)>) -> (r: JsonValue)
    ensures
        r@ == trees_json(tree_models(trees@)),
{
    let mut members: Vec<Member> = Vec::new();
    let mut i: usize = 0;
    while i < trees.len()
        invariant
            i <= trees.len(),
            members@.len() == i,
            forall|j: int|
                0 <= j < i ==> members@[j].name@ == trees@[j].0@ && members@[j].value@
                    == tree_json(trees@[j].1@),
        decreases trees.len() - i,
    {
        members.push(Member { name: trees[i].0.clone(), value: tree_to_json(&trees[i].1) });
        i = i + 1;
    }
    let r = object_of(members);
    assert(r@->Object_0 =~= trees_json(tree_models(trees@))->Object_0);
    r
}

/// Writes a document as a JSON value: an object with one member for each field
/// that has a value, under its name on the wire.
pub fn document_to_json(doc: &TreeDocument) -> (r: JsonValue)
    ensures
        r@ == document_json(doc@),
{
    let ghost fields = document_fields(doc@);
    let mut members: Vec<Member> = Vec::new();
    assert(member_models(members@) =~= record(fields.take(0)));
    push_field(
        &mut members,
        "formatVersion",
        Some(JsonValue::String(doc.format_version.clone())),
        Ghost(fields),
        Ghost(0),
    );
    push_field(
        &mut members,
        "rootNodeId",
        json_of_optional_text(&doc.root_node_id),
        Ghost(fields),
        Ghost(1),
    );
    push_field(&mut members, "nodes", Some(nodes_to_json(&doc.nodes)), Ghost(fields), Ghost(2));
    push_field(&mut members, "edges", Some(edges_to_json(&doc.edges)), Ghost(fields), Ghost(3));
    push_field(
        &mut members,
        "minReaderVersion",
        json_of_optional_text(&doc.min_reader_version),
        Ghost(fields),
        Ghost(4),
    );
    push_field(
        &mut members,
        "features",
        json_of_optional_text_list(&doc.features),
        Ghost(fields),
        Ghost(5),
    );
    push_field(&mut members, "metadata", doc.metadata.clone(), Ghost(fields), Ghost(6));
    let trees = match &doc.trees {
        Some(trees) => Some(trees_to_json(trees)),
        None => None,
    };
    push_field(&mut members, "trees", trees, Ghost(fields), Ghost(7));
    let embedding = match &doc.embedding_ref {
        Some(e) => Some(embedding_to_json(e)),
        None => None,
    };
    push_field(&mut members, "embeddingRef", embedding, Ghost(fields), Ghost(8));
    assert(fields.take(9) =~= fields);
    object_of(members)
}

} // verus!
