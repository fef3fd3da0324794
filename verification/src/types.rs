use vstd::prelude::*;

use crate::json::{JsonModel, JsonValue};
use crate::text::texts;

verus! {

/// The view of an optional string.
pub open spec fn opt_text(o: Option<String>) -> Option<Seq<char>> {
    match o {
        Some(s) => Some(s@),
        None => None,
    }
}

/// The view of an optional list of strings.
pub open spec fn opt_texts(o: Option<Vec<String>>) -> Option<Seq<Seq<char>>> {
    match o {
        Some(v) => Some(texts(v@)),
        None => None,
    }
}

/// The view of an optional JSON value.
pub open spec fn opt_json(o: Option<JsonValue>) -> Option<JsonModel> {
    match o {
        Some(v) => Some(v@),
        None => None,
    }
}

/// One node of a document.
#[derive(Debug, Clone)]
pub struct Node {
    pub id: String,
    pub content: String,
    pub metadata: Option<JsonValue>,
    pub status: Option<String>,
    pub tree_ids: Option<Vec<String>>,
}

/// The mathematical value of a [`Node`].
pub struct NodeModel {
    pub id: Seq<char>,
    pub content: Seq<char>,
    pub metadata: Option<JsonModel>,
    pub status: Option<Seq<char>>,
    pub tree_ids: Option<Seq<Seq<char>>>,
}

impl View for Node {
    type V = NodeModel;

    open spec fn view(&self) -> NodeModel {
        NodeModel {
            id: self.id@,
            content: self.content@,
            metadata: opt_json(self.metadata),
            status: opt_text(self.status),
            tree_ids: opt_texts(self.tree_ids),
        }
    }
}

/// One directed edge of a document. Its endpoints need not name existing nodes.
#[derive(Debug, Clone)]
pub struct Edge {
    pub source: String,
    pub target: String,
    pub is_trunk: Option<bool>,
    pub label: Option<String>,
    pub edge_type: Option<String>,
    pub status: Option<String>,
    pub description: Option<String>,
    pub tree_id: Option<String>,
    pub link_type: Option<String>,
}

/// The mathematical value of an [`Edge`].
pub struct EdgeModel {
    pub source: Seq<char>,
    pub target: Seq<char>,
    pub is_trunk: Option<bool>,
    pub label: Option<Seq<char>>,
    pub edge_type: Option<Seq<char>>,
    pub status: Option<Seq<char>>,
    pub description: Option<Seq<char>>,
    pub tree_id: Option<Seq<char>>,
    pub link_type: Option<Seq<char>>,
}

impl EdgeModel {
    /// Whether the edge is marked as part of the trunk. An absent mark counts as "no".
    pub open spec fn on_trunk(self) -> bool {
        self.is_trunk == Some(true)
    }
}

impl View for Edge {
    type V = EdgeModel;

    open spec fn view(&self) -> EdgeModel {
        EdgeModel {
            source: self.source@,
            target: self.target@,
            is_trunk: self.is_trunk,
            label: opt_text(self.label),
            edge_type: opt_text(self.edge_type),
            status: opt_text(self.status),
            description: opt_text(self.description),
            tree_id: opt_text(self.tree_id),
            link_type: opt_text(self.link_type),
        }
    }
}

impl Edge {
    /// Whether the edge is marked as part of the trunk.
    pub fn on_trunk(&self) -> (b: bool)
        ensures
            b == self@.on_trunk(),
    {
        match self.is_trunk {
            Some(flag) => flag,
            None => false,
        }
    }
}

/// One named sub-tree of a document.
#[derive(Debug, Clone)]
pub struct TreeDescriptor {
    pub root_node_id: String,
    pub label: Option<String>,
    pub description: Option<String>,
}

/// The mathematical value of a [`TreeDescriptor`].
pub struct TreeDescriptorModel {
    pub root_node_id: Seq<char>,
    pub label: Option<Seq<char>>,
    pub description: Option<Seq<char>>,
}

impl View for TreeDescriptor {
    type V = TreeDescriptorModel;

    open spec fn view(&self) -> TreeDescriptorModel {
        TreeDescriptorModel {
            root_node_id: self.root_node_id@,
            label: opt_text(self.label),
            description: opt_text(self.description),
        }
    }
}

/// A reference to an external embedding.
#[derive(Debug, Clone)]
pub struct EmbeddingRef {
    pub format: String,
    pub path: Option<String>,
}

/// The mathematical value of an [`EmbeddingRef`].
pub struct EmbeddingRefModel {
    pub format: Seq<char>,
    pub path: Option<Seq<char>>,
}

impl View for EmbeddingRef {
    type V = EmbeddingRefModel;

    open spec fn view(&self) -> EmbeddingRefModel {
        EmbeddingRefModel { format: self.format@, path: opt_text(self.path) }
    }
}

/// The views of a sequence of nodes.
pub open spec fn node_models(v: Seq<Node>) -> Seq<NodeModel> {
    v.map_values(|n: Node| n@)
}

/// The views of a sequence of edges.
pub open spec fn edge_models(v: Seq<Edge>) -> Seq<EdgeModel> {
    v.map_values(|e: Edge| e@)
}

/// The views of a sequence of named sub-trees.
pub open spec fn tree_models(v: Seq<(String, TreeDescriptor)>) -> Seq<
    (Seq<char>, TreeDescriptorModel),
> {
    v.map_values(|t: (String, TreeDescriptor)| (t.0@, t.1@))
}

/// A tree document: nodes, directed edges, an optional root and the optional
/// fields of the higher tiers.
#[derive(Debug, Clone)]
pub struct TreeDocument {
    pub format_version: String,
    pub root_node_id: Option<String>,
    pub nodes: Vec<Node>,
    pub edges: Vec<Edge>,
    pub min_reader_version: Option<String>,
    pub features: Option<Vec<String>>,
    pub metadata: Option<JsonValue>,
    pub trees: Option<Vec<(String, TreeDescriptor)>>,
    pub embedding_ref: Option<EmbeddingRef>,
}

/// The mathematical value of a [`TreeDocument`].
pub struct DocumentModel {
    pub format_version: Seq<char>,
    pub root_node_id: Option<Seq<char>>,
    pub nodes: Seq<NodeModel>,
    pub edges: Seq<EdgeModel>,
    pub min_reader_version: Option<Seq<char>>,
    pub features: Option<Seq<Seq<char>>>,
    pub metadata: Option<JsonModel>,
    pub trees: Option<Seq<(Seq<char>, TreeDescriptorModel)>>,
    pub embedding_ref: Option<EmbeddingRefModel>,
}

impl DocumentModel {
    /// Whether each of the named sub-trees has a name of its own. A document
    /// that was read from a text has; one that was put together by hand may
    /// name a sub-tree twice.
    pub open spec fn tree_names_distinct(self) -> bool {
        match self.trees {
            Some(trees) => forall|i: int, j: int|
                0 <= i < j < trees.len() ==> (#[trigger] trees[i]).0 != (#[trigger] trees[j]).0,
            None => true,
        }
    }

    /// The ids of the nodes, in document order, repeats included.
    pub open spec fn node_ids(self) -> Seq<Seq<char>> {
        self.nodes.map_values(|n: NodeModel| n.id)
    }
}

impl View for TreeDocument {
    type V = DocumentModel;

    open spec fn view(&self) -> DocumentModel {
        DocumentModel {
            format_version: self.format_version@,
            root_node_id: opt_text(self.root_node_id),
            nodes: node_models(self.nodes@),
            edges: edge_models(self.edges@),
            min_reader_version: opt_text(self.min_reader_version),
            features: opt_texts(self.features),
            metadata: opt_json(self.metadata),
            trees: match self.trees {
                Some(t) => Some(tree_models(t@)),
                None => None,
            },
            embedding_ref: match self.embedding_ref {
                Some(e) => Some(e@),
                None => None,
            },
        }
    }
}

} // verus!
