use vstd::prelude::*;

use crate::json::JsonModel;
use crate::text::{decimal, decimal_string, texts};
use crate::index::{lemma_positions, positions_of, TextIndex};
use crate::trunk::{
    find_trunk_edge, source_index, sources_of, trunk_advances, trunk_length, trunk_loops,
    trunk_node, trunk_nodes, trunk_target, trunk_walk, trunk_walked,
};
use crate::validate::node_index;
use crate::types::{
    edge_models, node_models, opt_text, DocumentModel, Edge, EdgeModel, Node, NodeModel,
    TreeDocument,
};

verus! {

/// One step of the trunk view: a node on the trunk and what branches off it.
#[derive(Debug)]
pub struct TrunkStep {
    pub node_id: String,
    pub content: String,
    pub branch_count: usize,
    pub branch_labels: Vec<String>,
    pub is_terminal: bool,
    pub trunk_target: Option<String>,
}

/// The mathematical value of a [`TrunkStep`].
pub struct TrunkStepModel {
    pub node_id: Seq<char>,
    pub content: Seq<char>,
    pub branch_count: nat,
    pub branch_labels: Seq<Seq<char>>,
    pub is_terminal: bool,
    pub trunk_target: Option<Seq<char>>,
}

impl View for TrunkStep {
    type V = TrunkStepModel;

    open spec fn view(&self) -> TrunkStepModel {
        TrunkStepModel {
            node_id: self.node_id@,
            content: self.content@,
            branch_count: self.branch_count as nat,
            branch_labels: texts(self.branch_labels@),
            is_terminal: self.is_terminal,
            trunk_target: opt_text(self.trunk_target),
        }
    }
}

/// The trunk of a document laid out as a list of steps.
#[derive(Debug)]
pub struct TrunkView {
    pub title: String,
    pub stats: String,
    pub steps: Vec<TrunkStep>,
}

/// The mathematical value of a [`TrunkView`].
pub struct TrunkViewModel {
    pub title: Seq<char>,
    pub stats: Seq<char>,
    pub steps: Seq<TrunkStepModel>,
}

/// The views of a sequence of steps.
pub open spec fn step_models(v: Seq<TrunkStep>) -> Seq<TrunkStepModel> {
    v.map_values(|s: TrunkStep| s@)
}

impl View for TrunkView {
    type V = TrunkViewModel;

    open spec fn view(&self) -> TrunkViewModel {
        TrunkViewModel { title: self.title@, stats: self.stats@, steps: step_models(self.steps@) }
    }
}

/// Index of the node that an id stands for in the view. Where several nodes
/// share an id, the last one in document order counts.
pub open spec fn node_for(nodes: Seq<NodeModel>, id: Seq<char>) -> Option<int>
    decreases nodes.len(),
{
    if nodes.len() == 0 {
        None
    } else if nodes.last().id == id {
        Some(nodes.len() - 1)
    } else {
        node_for(nodes.drop_last(), id)
    }
}

/// The number of edges off the trunk that leave `source`.
pub open spec fn branch_count(edges: Seq<EdgeModel>, source: Seq<char>) -> nat
    decreases edges.len(),
{
    if edges.len() == 0 {
        0
    } else if !edges.last().on_trunk() && edges.last().source == source {
        branch_count(edges.drop_last(), source) + 1
    } else {
        branch_count(edges.drop_last(), source)
    }
}

/// The labels of the edges off the trunk that leave `source`, in document
/// order. Edges without label contribute nothing.
pub open spec fn branch_labels(edges: Seq<EdgeModel>, source: Seq<char>) -> Seq<Seq<char>>
    decreases edges.len(),
{
    if edges.len() == 0 {
        Seq::empty()
    } else if !edges.last().on_trunk() && edges.last().source == source && edges.last().label
        is Some {
        branch_labels(edges.drop_last(), source).push(edges.last().label.unwrap())
    } else {
        branch_labels(edges.drop_last(), source)
    }
}

/// The step shown for the trunk node `id`, whose content is that of node `at`.
pub open spec fn step_for(d: DocumentModel, id: Seq<char>, at: int) -> TrunkStepModel {
    TrunkStepModel {
        node_id: id,
        content: d.nodes[at].content,
        branch_count: branch_count(d.edges, id),
        branch_labels: branch_labels(d.edges, id),
        is_terminal: trunk_target(d.edges, id) is None,
        trunk_target: trunk_target(d.edges, id),
    }
}

/// The failure reported for a document without root.
pub open spec fn no_root_message() -> Seq<char> {
    "Document has no rootNodeId"@
}

/// The failure reported for a trunk node that no node of the document stands for.
pub open spec fn missing_node_message(id: Seq<char>) -> Seq<char> {
    "Root node '"@ + id + "' not found in nodes array"@
}

/// The steps for the trunk nodes `path`, or the failure for the first of them
/// that is not a node of the document.
pub open spec fn steps_for(d: DocumentModel, path: Seq<Seq<char>>) -> Result<
    Seq<TrunkStepModel>,
    Seq<char>,
>
    decreases path.len(),
{
    if path.len() == 0 {
        Ok(Seq::empty())
    } else {
        match steps_for(d, path.drop_last()) {
            Err(e) => Err(e),
            Ok(steps) => match node_for(d.nodes, path.last()) {
                None => Err(missing_node_message(path.last())),
                Some(at) => Ok(steps.push(step_for(d, path.last(), at))),
            },
        }
    }
}

/// The title of a document: the member `title` of its metadata where that is a
/// string, a placeholder otherwise.
pub open spec fn title_of(metadata: Option<JsonModel>) -> Seq<char> {
    match metadata {
        Some(m) => match m.member("title"@) {
            Some(t) => match t.as_text() {
                Some(s) => s,
                None => "Untitled Document"@,
            },
            None => "Untitled Document"@,
        },
        None => "Untitled Document"@,
    }
}

/// The line of counts shown under the title.
pub open spec fn stats_line(nodes: nat, edges: nat) -> Seq<char> {
    decimal(nodes) + " nodes, "@ + decimal(edges) + " edges"@
}

/// The nodes that the trunk view shows for a document rooted at `root`: those
/// of the walk along the trunk, each once.
pub open spec fn trunk_path(edges: Seq<EdgeModel>, root: Seq<char>) -> Seq<Seq<char>> {
    if trunk_loops(edges, root) {
        trunk_nodes(edges, root, trunk_length(edges, root))
    } else {
        trunk_nodes(edges, root, trunk_length(edges, root) + 1)
    }
}

/// The trunk view of a document, or the reason why it has none.
pub open spec fn trunk_view_of(d: DocumentModel) -> Result<TrunkViewModel, Seq<char>> {
    match d.root_node_id {
        None => Err(no_root_message()),
        Some(root) => match steps_for(d, trunk_path(d.edges, root)) {
            Err(e) => Err(e),
            Ok(steps) => Ok(
                TrunkViewModel {
                    title: title_of(d.metadata),
                    stats: stats_line(d.nodes.len(), d.edges.len()),
                    steps,
                },
            ),
        },
    }
}

/// The node that [`node_for`] finds has the id, and no later node has it.
pub proof fn lemma_node_for(nodes: Seq<NodeModel>, id: Seq<char>)
    ensures
        match node_for(nodes, id) {
            Some(i) => 0 <= i < nodes.len() && nodes[i].id == id && forall|j: int|
                i < j < nodes.len() ==> (#[trigger] nodes[j]).id != id,
            None => forall|j: int| 0 <= j < nodes.len() ==> (#[trigger] nodes[j]).id != id,
        },
    decreases nodes.len(),
{
    if nodes.len() > 0 && nodes.last().id != id {
        let rest = nodes.drop_last();
        lemma_node_for(rest, id);
        assert(forall|j: int| 0 <= j < rest.len() ==> rest[j] == nodes[j]);
    }
}

/// Finds the node that `id` stands for in the view, with the index of the
/// ids of the nodes.
pub fn find_node(nodes: &Vec<Node>, node_ids: &TextIndex, id: &String) -> (r: Option<usize>)
    requires
        node_ids.wf(),
        node_ids@ == node_models(nodes@).map_values(|n: NodeModel| n.id),
    ensures
        match r {
            Some(i) => i < nodes.len() && node_for(node_models(nodes@), id@) == Some(i as int),
            None => node_for(node_models(nodes@), id@) is None,
        },
{
    let ghost models = node_models(nodes@);
    let r = node_ids.last(id);
    proof {
        lemma_node_for(models, id@);
        match r {
            Some(p) => {
                assert(node_ids@[p as int] == models[p as int].id);
                match node_for(models, id@) {
                    Some(i) => {
                        if i < p {
                            assert(models[p as int].id != id@);
                        }
                        if p < i {
                            assert(node_ids@[i] == models[i].id);
                        }
                    },
                    None => {
                        assert(models[p as int].id != id@);
                    },
                }
            },
            None => {
                match node_for(models, id@) {
                    Some(i) => {
                        assert(node_ids@[i] == models[i].id);
                        assert(node_ids@.contains(id@));
                    },
                    None => {},
                }
            },
        }
    }
    r
}

/// Edges from other sources add nothing to what branches off at `source`.
pub proof fn lemma_branches_skip(edges: Seq<EdgeModel>, source: Seq<char>, a: int, b: int)
    requires
        0 <= a <= b <= edges.len(),
        forall|j: int| a <= j < b ==> (#[trigger] edges[j]).source != source,
    ensures
        branch_count(edges.take(b), source) == branch_count(edges.take(a), source),
        branch_labels(edges.take(b), source) == branch_labels(edges.take(a), source),
    decreases b - a,
{
    if a < b {
        lemma_branches_skip(edges, source, a, b - 1);
        assert(edges.take(b).drop_last() =~= edges.take(b - 1));
        assert(edges.take(b).last() == edges[b - 1]);
    }
}

/// Collects what branches off the trunk at `source`: the number of edges and
/// their labels, with the index of the sources of the edges.
pub fn branches_at(edges: &Vec<Edge>, sources: &TextIndex, source: &String) -> (r: (
    usize,
    Vec<String>,
))
    requires
        sources.wf(),
        sources@ == sources_of(edge_models(edges@)),
    ensures
        r.0 == branch_count(edge_models(edges@), source@),
        texts(r.1@) == branch_labels(edge_models(edges@), source@),
{
    let ghost em = edge_models(edges@);
    let places = sources.positions(source);
    proof {
        lemma_positions(sources@, source@);
    }
    let mut count: usize = 0;
    let mut labels: Vec<String> = Vec::new();
    let mut i: usize = 0;
    let ghost mut done: int = 0;
    assert(texts(labels@) =~= branch_labels(em.take(0), source@));
    while i < places.len()
        invariant
            i <= places.len(),
            em == edge_models(edges@),
            sources@ == sources_of(em),
            places@ == positions_of(sources@, source@),
            forall|j: int|
                0 <= j < places.len() ==> (#[trigger] places@[j]) < em.len() && em[places@[j] as int].source
                    == source@,
            forall|j: int, k: int|
                0 <= j < k < places.len() ==> (#[trigger] places@[j]) < (#[trigger] places@[k]),
            forall|p: int|
                0 <= p < em.len() && em[p].source == source@ ==> #[trigger] places@.contains(
                    p as usize,
                ),
            done == if i == 0 {
                0
            } else {
                places@[i - 1] + 1
            },
            0 <= done <= em.len(),
            count <= i,
            count == branch_count(em.take(done), source@),
            texts(labels@) == branch_labels(em.take(done), source@),
        decreases places.len() - i,
    {
        let place = places[i];
        proof {
            assert forall|j: int| done <= j < place implies (#[trigger] em[j]).source != source@ by {
                if em[j].source == source@ {
                    assert(places@.contains(j as usize));
                    let k = choose|k: int| 0 <= k < places.len() && places@[k] == j as usize;
                    if k < i {
                        if k < i - 1 {
                            assert(places@[k] < places@[i - 1]);
                        }
                    } else if k > i {
                        assert(places@[i as int] < places@[k]);
                    }
                }
            }
            if i > 0 {
                assert(places@[i - 1] < places@[i as int]);
            }
            lemma_branches_skip(em, source@, done, place as int);
            assert(em.take(place + 1).drop_last() =~= em.take(place as int));
            assert(em.take(place + 1).last() == edges@[place as int]@);
        }
        let edge = &edges[place];
        if !edge.on_trunk() {
            count = count + 1;
            match &edge.label {
                Some(label) => {
                    let ghost before = texts(labels@);
                    labels.push(label.clone());
                    assert(texts(labels@) =~= before.push(label@));
                },
                None => {},
            }
        }
        proof {
            done = place + 1;
        }
        i = i + 1;
    }
    proof {
        assert forall|j: int| done <= j < em.len() implies (#[trigger] em[j]).source != source@ by {
            if em[j].source == source@ {
                assert(places@.contains(j as usize));
                let k = choose|k: int| 0 <= k < places.len() && places@[k] == j as usize;
                if k < places.len() - 1 {
                    assert(places@[k] < places@[places.len() - 1]);
                }
            }
        }
        lemma_branches_skip(em, source@, done, em.len() as int);
        assert(em.take(em.len() as int) =~= em);
    }
    (count, labels)
}

/// Builds the step for the trunk node `id`.
fn build_step(doc: &TreeDocument, node_ids: &TextIndex, sources: &TextIndex, id: &String) -> (r:
    Result<TrunkStep, String>)
    requires
        node_ids.wf(),
        node_ids@ == doc@.node_ids(),
        sources.wf(),
        sources@ == sources_of(doc@.edges),
    ensures
        match r {
            Ok(step) => match node_for(doc@.nodes, id@) {
                Some(at) => step@ == step_for(doc@, id@, at),
                None => false,
            },
            Err(e) => node_for(doc@.nodes, id@) is None && e@ == missing_node_message(id@),
        },
{
    match find_node(&doc.nodes, node_ids, id) {
        None => {
            let mut message = String::from_str("Root node '");
            message.append(id.as_str());
            message.append("' not found in nodes array");
            Err(message)
        },
        Some(at) => {
            let (count, labels) = branches_at(&doc.edges, sources, id);
            let next = find_trunk_edge(&doc.edges, sources, id);
            let target = match next {
                Some(e) => Some(doc.edges[e].target.clone()),
                None => None,
            };
            Ok(
                TrunkStep {
                    node_id: id.clone(),
                    content: doc.nodes[at].content.clone(),
                    branch_count: count,
                    branch_labels: labels,
                    is_terminal: next.is_none(),
                    trunk_target: target,
                },
            )
        },
    }
}

/// Each edge that the walk takes leads to the next node of the walk.
pub proof fn lemma_walk_hop(
    edges: Seq<EdgeModel>,
    root: Seq<char>,
    hops: Seq<usize>,
    looped: bool,
    i: int,
)
    requires
        trunk_walked(edges, root, hops, looped),
        0 <= i < hops.len(),
    ensures
        0 <= hops[i] < edges.len(),
        trunk_node(edges, root, i as nat) is Some,
        trunk_node(edges, root, (i + 1) as nat) == Some(edges[hops[i] as int].target),
{
    assert(trunk_advances(edges, root, i as nat));
    assert(trunk_node(edges, root, (i + 1) as nat) is Some);
    crate::trunk::lemma_trunk_edge(edges, trunk_node(edges, root, i as nat).unwrap());
}

/// Lays the trunk of a document out as a list of steps, from the root to where
/// the trunk ends. Fails where the document has no root, and where a node on
/// the trunk is not a node of the document.
pub fn build_trunk_view(doc: &TreeDocument) -> (r: Result<TrunkView, String>)
    ensures
        match r {
            Ok(v) => trunk_view_of(doc@) == Ok::<TrunkViewModel, Seq<char>>(v@),
            Err(e) => trunk_view_of(doc@) == Err::<TrunkViewModel, Seq<char>>(e@),
        },
{
    let root = match &doc.root_node_id {
        Some(id) => id,
        None => {
            return Err(String::from_str("Document has no rootNodeId"));
        },
    };
    let ghost d = doc@;
    let node_ids = node_index(doc);
    let sources = source_index(&doc.edges);
    let (hops, looped) = trunk_walk(&doc.edges, &sources, root);
    proof {
        if looped && hops.len() == 0 {
            assert(trunk_advances(d.edges, root@, 0));
        }
    }
    let shown = if looped {
        hops.len() - 1
    } else {
        hops.len()
    };
    let mut steps: Vec<TrunkStep> = Vec::new();
    match build_step(doc, &node_ids, &sources, root) {
        Ok(step) => {
            steps.push(step);
            proof {
                let first = trunk_nodes(d.edges, root@, 1);
                assert(first.drop_last() =~= Seq::<Seq<char>>::empty());
                assert(first.last() == root@);
                assert(steps_for(d, Seq::<Seq<char>>::empty()) == Ok::<
                    Seq<TrunkStepModel>,
                    Seq<char>,
                >(Seq::empty()));
                assert(step_models(steps@) =~= Seq::<TrunkStepModel>::empty().push(step@));
            }
        },
        Err(e) => {
            proof {
                let path = trunk_path(d.edges, root@);
                assert(path.take(0) =~= Seq::<Seq<char>>::empty());
                assert(path[0] == root@);
                lemma_steps_fail(d, path, 0);
            }
            return Err(e);
        },
    }
    let mut i: usize = 0;
    while i < shown
        invariant
            d == doc@,
            node_ids.wf(),
            node_ids@ == d.node_ids(),
            sources.wf(),
            sources@ == sources_of(d.edges),
            d.root_node_id == Some(root@),
            i <= shown <= hops.len(),
            shown == if looped {
                hops.len() - 1
            } else {
                hops.len() as int
            },
            trunk_walked(d.edges, root@, hops@, looped),
            steps.len() == i + 1,
            steps_for(d, trunk_nodes(d.edges, root@, steps.len() as nat)) == Ok::<
                Seq<TrunkStepModel>,
                Seq<char>,
            >(step_models(steps@)),
        decreases shown - i,
    {
        proof {
            lemma_walk_hop(d.edges, root@, hops@, looped, i as int);
            let longer = trunk_nodes(d.edges, root@, (i + 2) as nat);
            assert(longer.drop_last() =~= trunk_nodes(d.edges, root@, (i + 1) as nat));
            assert(longer.last() == doc.edges@[hops@[i as int] as int].target@);
        }
        let id = &doc.edges[hops[i]].target;
        match build_step(doc, &node_ids, &sources, id) {
            Ok(step) => {
                let ghost before = step_models(steps@);
                steps.push(step);
                assert(step_models(steps@) =~= before.push(step@));
            },
            Err(e) => {
                proof {
                    let path = trunk_path(d.edges, root@);
                    assert(path.take(i + 1) =~= trunk_nodes(d.edges, root@, (i + 1) as nat));
                    assert(path[i + 1] == id@);
                    lemma_steps_fail(d, path, i + 1);
                }
                return Err(e);
            },
        }
        i = i + 1;
    }
    let title = match &doc.metadata {
        Some(m) => match m.get("title") {
            Some(t) => match t.as_str() {
                Some(s) => s.clone(),
                None => String::from_str("Untitled Document"),
            },
            None => String::from_str("Untitled Document"),
        },
        None => String::from_str("Untitled Document"),
    };
    let mut stats = decimal_string(doc.nodes.len());
    stats.append(" nodes, ");
    let edge_count = decimal_string(doc.edges.len());
    stats.append(edge_count.as_str());
    stats.append(" edges");
    proof {
        assert(trunk_nodes(d.edges, root@, steps.len() as nat) =~= trunk_path(d.edges, root@));
    }
    Ok(TrunkView { title, stats, steps })
}

/// A failure at one trunk node is the failure of every longer list of trunk
/// nodes, as long as the nodes before it have their steps.
pub proof fn lemma_steps_fail(d: DocumentModel, path: Seq<Seq<char>>, at: int)
    requires
        0 <= at < path.len(),
        steps_for(d, path.take(at)) is Ok,
        node_for(d.nodes, path[at]) is None,
    ensures
        steps_for(d, path) == Err::<Seq<TrunkStepModel>, Seq<char>>(
            missing_node_message(path[at]),
        ),
    decreases path.len(),
{
    if at == path.len() - 1 {
        assert(path.drop_last() =~= path.take(at));
    } else {
        assert(path.drop_last().take(at) =~= path.take(at));
        lemma_steps_fail(d, path.drop_last(), at);
    }
}

} // verus!
