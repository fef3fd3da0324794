use vstd::prelude::*;

use crate::error::{
    diagnostic_views, Diagnostic, DiagnosticView, DocumentStats, Location, LocationView, Rule,
    Severity, ValidationResult, ValidationResultView,
};
use crate::index::TextIndex;
use crate::json::{json_text_value, lift_json, JsonModel};
use crate::laws::{
    cycles_are_plural, lemma_cycles_are_plural, lemma_first_ids, lemma_plural_result,
    lemma_plural_semantics,
};
use crate::parse::{parse_value, ParseError};
use crate::reach::{is_reached, reachable, reached_edges, target_index};
use crate::scc::{lists, scc_order, strong_components};
use crate::schema::{
    are_schema_findings, baseline_findings, baseline_schema_loads, baseline_schema_ready,
    detect_tier, tier_of, validate_schema,
};
use crate::text::{decimal, decimal_string, join, joined, texts};
use crate::trunk::{
    source_index, sources_of, trunk_advances, trunk_length, trunk_loops, trunk_node, trunk_nodes,
    trunk_stops_at, trunk_walk, trunk_walked,
};
use crate::types::{
    edge_models, node_models, DocumentModel, Edge, EdgeModel, NodeModel, TreeDocument,
};
use crate::viewer::lemma_walk_hop;
use crate::wire::{document_from_json, document_of, first_fault};

verus! {

/// The ids of a sequence of nodes.
pub open spec fn ids_of(nodes: Seq<NodeModel>) -> Seq<Seq<char>> {
    nodes.map_values(|n: NodeModel| n.id)
}

/// What is reported for a node whose id an earlier node has already.
pub open spec fn duplicate_diagnostic(id: Seq<char>) -> DiagnosticView {
    DiagnosticView {
        rule: Rule::DuplicateNodeId,
        message: "Duplicate node ID '"@ + id + "'"@,
        location: LocationView::Node(id),
        severity: Severity::Error,
    }
}

/// The duplicate-id findings for nodes with the ids `ids`: one for each node
/// whose id occurs before it, in document order.
pub open spec fn duplicate_diagnostics(ids: Seq<Seq<char>>) -> Seq<DiagnosticView>
    decreases ids.len(),
{
    if ids.len() == 0 {
        Seq::empty()
    } else if ids.drop_last().contains(ids.last()) {
        duplicate_diagnostics(ids.drop_last()).push(duplicate_diagnostic(ids.last()))
    } else {
        duplicate_diagnostics(ids.drop_last())
    }
}

/// Builds the index of the ids of the nodes of a document.
pub fn node_index(doc: &TreeDocument) -> (ids: TextIndex)
    ensures
        ids.wf(),
        ids@ == doc@.node_ids(),
{
    let ghost all = doc@.node_ids();
    let mut ids = TextIndex::new(doc.nodes.len());
    let mut i: usize = 0;
    while i < doc.nodes.len()
        invariant
            i <= doc.nodes.len(),
            all == doc@.node_ids(),
            ids.wf(),
            ids@ == all.take(i as int),
        decreases doc.nodes.len() - i,
    {
        ids.insert(&doc.nodes[i].id);
        assert(all.take(i + 1) =~= all.take(i as int).push(doc.nodes@[i as int].id@));
        i = i + 1;
    }
    assert(all.take(doc.nodes.len() as int) =~= all);
    ids
}

/// Reports every node whose id an earlier node has already.
fn check_duplicate_ids(doc: &TreeDocument, diagnostics: &mut Vec<Diagnostic>)
    ensures
        diagnostic_views(final(diagnostics)@) == diagnostic_views(old(diagnostics)@)
            + duplicate_diagnostics(doc@.node_ids()),
{
    let ghost ids = doc@.node_ids();
    let ghost before = diagnostic_views(diagnostics@);
    let mut seen = TextIndex::new(doc.nodes.len());
    let mut i: usize = 0;
    assert(diagnostic_views(diagnostics@) =~= before + duplicate_diagnostics(ids.take(0)));
    assert(seen@ =~= ids.take(0));
    while i < doc.nodes.len()
        invariant
            i <= doc.nodes.len(),
            ids == doc@.node_ids(),
            ids == ids_of(node_models(doc.nodes@)),
            seen.wf(),
            seen@ == ids.take(i as int),
            diagnostic_views(diagnostics@) == before + duplicate_diagnostics(ids.take(i as int)),
        decreases doc.nodes.len() - i,
    {
        let node = &doc.nodes[i];
        proof {
            assert(ids.take(i + 1).drop_last() =~= ids.take(i as int));
            assert(ids.take(i + 1).last() == node.id@);
            assert(ids.take(i + 1) =~= ids.take(i as int).push(node.id@));
        }
        let repeated = seen.contains(&node.id);
        seen.insert(&node.id);
        if repeated {
            let mut message = String::from_str("Duplicate node ID '");
            message.append(node.id.as_str());
            message.append("'");
            let ghost shown = diagnostic_views(diagnostics@);
            let diagnostic = Diagnostic {
                rule: Rule::DuplicateNodeId,
                message,
                location: Location::Node(node.id.clone()),
                severity: Severity::Error,
            };
            diagnostics.push(diagnostic);
            assert(diagnostic_views(diagnostics@) =~= shown.push(duplicate_diagnostic(node.id@)));
        }
        i = i + 1;
    }
    assert(ids.take(doc.nodes.len() as int) =~= ids);
}

/// What is reported for an edge whose source is no node.
pub open spec fn dangling_source_diagnostic(e: EdgeModel) -> DiagnosticView {
    DiagnosticView {
        rule: Rule::DanglingEdge,
        message: "Edge references nonexistent node '"@ + e.source + "' as source (target: '"@
            + e.target + "')"@,
        location: LocationView::Edge { source: e.source, target: e.target },
        severity: Severity::Error,
    }
}

/// What is reported for an edge whose target is no node.
pub open spec fn dangling_target_diagnostic(e: EdgeModel) -> DiagnosticView {
    DiagnosticView {
        rule: Rule::DanglingEdge,
        message: "Edge references nonexistent node '"@ + e.target + "' as target (source: '"@
            + e.source + "')"@,
        location: LocationView::Edge { source: e.source, target: e.target },
        severity: Severity::Error,
    }
}

/// The dangling-edge findings for one edge: one for a missing source, then one
/// for a missing target.
pub open spec fn dangling_ends(ids: Seq<Seq<char>>, e: EdgeModel) -> Seq<DiagnosticView> {
    let at_source = if ids.contains(e.source) {
        Seq::empty()
    } else {
        seq![dangling_source_diagnostic(e)]
    };
    let at_target = if ids.contains(e.target) {
        Seq::empty()
    } else {
        seq![dangling_target_diagnostic(e)]
    };
    at_source + at_target
}

/// The dangling-edge findings for `edges` among nodes with the ids `ids`, in
/// document order.
pub open spec fn dangling_diagnostics(ids: Seq<Seq<char>>, edges: Seq<EdgeModel>) -> Seq<
    DiagnosticView,
>
    decreases edges.len(),
{
    if edges.len() == 0 {
        Seq::empty()
    } else {
        dangling_diagnostics(ids, edges.drop_last()) + dangling_ends(ids, edges.last())
    }
}

/// Builds the location of an edge.
fn edge_location(edge: &Edge) -> (r: Location)
    ensures
        r@ == (LocationView::Edge { source: edge@.source, target: edge@.target }),
{
    Location::Edge { source: edge.source.clone(), target: edge.target.clone() }
}

/// Reports every edge end that names no node.
fn check_dangling_edges(doc: &TreeDocument, node_ids: &TextIndex, diagnostics: &mut Vec<Diagnostic>)
    requires
        node_ids.wf(),
        node_ids@ == doc@.node_ids(),
    ensures
        diagnostic_views(final(diagnostics)@) == diagnostic_views(old(diagnostics)@)
            + dangling_diagnostics(doc@.node_ids(), doc@.edges),
{
    let ghost ids = doc@.node_ids();
    let ghost em = doc@.edges;
    let ghost before = diagnostic_views(diagnostics@);
    let mut i: usize = 0;
    assert(diagnostic_views(diagnostics@) =~= before + dangling_diagnostics(ids, em.take(0)));
    while i < doc.edges.len()
        invariant
            i <= doc.edges.len(),
            node_ids.wf(),
            ids == node_ids@,
            em == edge_models(doc.edges@),
            diagnostic_views(diagnostics@) == before + dangling_diagnostics(ids, em.take(i as int)),
        decreases doc.edges.len() - i,
    {
        let edge = &doc.edges[i];
        proof {
            assert(em.take(i + 1).drop_last() =~= em.take(i as int));
            assert(em.take(i + 1).last() == edge@);
        }
        let ghost shown = diagnostic_views(diagnostics@);
        if !node_ids.contains(&edge.source) {
            let mut message = String::from_str("Edge references nonexistent node '");
            message.append(edge.source.as_str());
            message.append("' as source (target: '");
            message.append(edge.target.as_str());
            message.append("')");
            diagnostics.push(
                Diagnostic {
                    rule: Rule::DanglingEdge,
                    message,
                    location: edge_location(edge),
                    severity: Severity::Error,
                },
            );
        }
        let ghost halfway = diagnostic_views(diagnostics@);
        assert(halfway =~= shown + if ids.contains(edge@.source) {
            Seq::empty()
        } else {
            seq![dangling_source_diagnostic(edge@)]
        });
        if !node_ids.contains(&edge.target) {
            let mut message = String::from_str("Edge references nonexistent node '");
            message.append(edge.target.as_str());
            message.append("' as target (source: '");
            message.append(edge.source.as_str());
            message.append("')");
            diagnostics.push(
                Diagnostic {
                    rule: Rule::DanglingEdge,
                    message,
                    location: edge_location(edge),
                    severity: Severity::Error,
                },
            );
        }
        assert(diagnostic_views(diagnostics@) =~= shown + dangling_ends(ids, edge@));
        i = i + 1;
    }
    assert(em.take(doc.edges.len() as int) =~= em);
}

/// The root of a document where it is the id of one of its nodes. The rules
/// that start from the root are silent for a document without such a root.
pub open spec fn known_root(d: DocumentModel) -> Option<Seq<char>> {
    match d.root_node_id {
        Some(root) => if d.node_ids().contains(root) {
            Some(root)
        } else {
            None
        },
        None => None,
    }
}

/// Finds the root of a document where it is the id of one of its nodes.
fn find_known_root<'a>(doc: &'a TreeDocument, node_ids: &TextIndex) -> (r: Option<&'a String>)
    requires
        node_ids.wf(),
        node_ids@ == doc@.node_ids(),
    ensures
        match r {
            Some(root) => known_root(doc@) == Some(root@),
            None => known_root(doc@) is None,
        },
{
    match &doc.root_node_id {
        Some(root) => if node_ids.contains(root) {
            Some(root)
        } else {
            None
        },
        None => None,
    }
}

/// Where the cycle begins in a trunk walk that ends at a node met before: the
/// place of the first visit to that node.
pub open spec fn trunk_cycle_start(edges: Seq<EdgeModel>, root: Seq<char>) -> nat {
    let k = trunk_length(edges, root);
    choose|j: nat| j < k && trunk_node(edges, root, j) == trunk_node(edges, root, k)
}

/// The nodes of the cycle that a trunk walk ends in, from the first visit to
/// the node that it meets again up to the last node before the second visit.
pub open spec fn trunk_cycle(edges: Seq<EdgeModel>, root: Seq<char>) -> Seq<Seq<char>> {
    trunk_nodes(edges, root, trunk_length(edges, root)).skip(
        trunk_cycle_start(edges, root) as int,
    )
}

/// What is reported for a trunk that runs into the cycle `cycle`.
pub open spec fn trunk_cycle_diagnostic(cycle: Seq<Seq<char>>) -> DiagnosticView {
    DiagnosticView {
        rule: Rule::TrunkCycle,
        message: "Trunk path contains a cycle: "@ + joined(cycle, " -> "@),
        location: LocationView::Path(cycle),
        severity: Severity::Error,
    }
}

/// The trunk-cycle findings for a document: one where the walk along the trunk
/// from a known root meets a node again, none otherwise.
pub open spec fn trunk_cycle_diagnostics(d: DocumentModel) -> Seq<DiagnosticView> {
    match known_root(d) {
        Some(root) => if trunk_loops(d.edges, root) {
            seq![trunk_cycle_diagnostic(trunk_cycle(d.edges, root))]
        } else {
            Seq::empty()
        },
        None => Seq::empty(),
    }
}

/// The `i`-th node of a trunk walk.
fn walk_node<'a>(edges: &'a Vec<Edge>, root: &'a String, hops: &Vec<usize>, i: usize) -> (r:
    &'a String)
    requires
        i <= hops.len(),
        exists|looped: bool| trunk_walked(edge_models(edges@), root@, hops@, looped),
    ensures
        trunk_node(edge_models(edges@), root@, i as nat) == Some(r@),
{
    if i == 0 {
        root
    } else {
        proof {
            let looped = choose|looped: bool|
                trunk_walked(edge_models(edges@), root@, hops@, looped);
            lemma_walk_hop(edge_models(edges@), root@, hops@, looped, i - 1);
        }
        &edges[hops[i - 1]].target
    }
}

/// Reports the cycle that the trunk runs into, if it does.
fn check_trunk_cycle(
    doc: &TreeDocument,
    node_ids: &TextIndex,
    sources: &TextIndex,
    diagnostics: &mut Vec<Diagnostic>,
)
    requires
        node_ids.wf(),
        node_ids@ == doc@.node_ids(),
        sources.wf(),
        sources@ == sources_of(doc@.edges),
    ensures
        diagnostic_views(final(diagnostics)@) == diagnostic_views(old(diagnostics)@)
            + trunk_cycle_diagnostics(doc@),
{
    let ghost before = diagnostic_views(diagnostics@);
    let root = match find_known_root(doc, node_ids) {
        Some(root) => root,
        None => {
            assert(before =~= before + trunk_cycle_diagnostics(doc@));
            return ;
        },
    };
    let ghost em = doc@.edges;
    let (hops, looped) = trunk_walk(&doc.edges, sources, root);
    if !looped {
        assert(before =~= before + trunk_cycle_diagnostics(doc@));
        return ;
    }
    let k = hops.len();
    proof {
        if k == 0 {
            assert(trunk_advances(em, root@, 0));
        }
    }
    let repeated = walk_node(&doc.edges, root, &hops, k);
    proof {
        assert(!trunk_advances(em, root@, k as nat));
    }
    let mut start: usize = 0;
    while start < k && *walk_node(&doc.edges, root, &hops, start) != *repeated
        invariant
            start <= k == hops.len(),
            em == edge_models(doc.edges@),
            trunk_walked(em, root@, hops@, looped),
            trunk_node(em, root@, k as nat) == Some(repeated@),
            exists|j: nat| start <= j < k && trunk_node(em, root@, j) == trunk_node(em, root@, k as nat),
        decreases k - start,
    {
        start = start + 1;
    }
    proof {
        let chosen = trunk_cycle_start(em, root@);
        assert(trunk_node(em, root@, start as nat) == trunk_node(em, root@, k as nat));
        if chosen < start {
            assert(trunk_advances(em, root@, start as nat));
        }
        if start < chosen {
            assert(trunk_advances(em, root@, chosen));
        }
        assert(chosen == start);
    }
    let mut cycle: Vec<String> = Vec::new();
    let mut i: usize = start;
    while i < k
        invariant
            start <= i <= k == hops.len(),
            em == edge_models(doc.edges@),
            trunk_walked(em, root@, hops@, looped),
            texts(cycle@) == trunk_nodes(em, root@, i as nat).skip(start as int),
        decreases k - i,
    {
        let node = walk_node(&doc.edges, root, &hops, i);
        let ghost shown = texts(cycle@);
        cycle.push(node.clone());
        assert(texts(cycle@) =~= shown.push(node@));
        assert(trunk_nodes(em, root@, (i + 1) as nat).skip(start as int) =~= trunk_nodes(
            em,
            root@,
            i as nat,
        ).skip(start as int).push(node@));
        i = i + 1;
    }
    let mut message = String::from_str("Trunk path contains a cycle: ");
    let list = join(&cycle, " -> ");
    message.append(list.as_str());
    let ghost shown = diagnostic_views(diagnostics@);
    diagnostics.push(
        Diagnostic {
            rule: Rule::TrunkCycle,
            message,
            location: Location::Path(cycle),
            severity: Severity::Error,
        },
    );
    assert(diagnostic_views(diagnostics@) =~= shown + trunk_cycle_diagnostics(doc@));
}

/// The distinct ids among `ids`, in the order of their first occurrence: the
/// vertices of the graph that is searched for cycles.
pub open spec fn first_ids(ids: Seq<Seq<char>>) -> Seq<Seq<char>>
    decreases ids.len(),
{
    if ids.len() == 0 {
        Seq::empty()
    } else if ids.drop_last().contains(ids.last()) {
        first_ids(ids.drop_last())
    } else {
        first_ids(ids.drop_last()).push(ids.last())
    }
}

/// The number of the vertex with the id `id`, if there is one.
pub open spec fn vertex_of(vertices: Seq<Seq<char>>, id: Seq<char>) -> Option<usize>
    decreases vertices.len(),
{
    if vertices.len() == 0 {
        None
    } else if vertices.last() == id {
        Some((vertices.len() - 1) as usize)
    } else {
        vertex_of(vertices.drop_last(), id)
    }
}

/// The edges of the graph that is searched for cycles: one for each edge of
/// the document of which both ends are vertices, in document order.
pub open spec fn links_of(vertices: Seq<Seq<char>>, edges: Seq<EdgeModel>) -> Seq<(usize, usize)>
    decreases edges.len(),
{
    if edges.len() == 0 {
        Seq::empty()
    } else {
        let rest = links_of(vertices, edges.drop_last());
        match (vertex_of(vertices, edges.last().source), vertex_of(vertices, edges.last().target)) {
            (Some(a), Some(b)) => rest.push((a, b)),
            _ => rest,
        }
    }
}

/// The ids of the vertices listed in `component`, in its order. A number that
/// is no vertex is passed over.
pub open spec fn members(vertices: Seq<Seq<char>>, component: Seq<usize>) -> Seq<Seq<char>>
    decreases component.len(),
{
    if component.len() == 0 {
        Seq::empty()
    } else if component.last() < vertices.len() {
        members(vertices, component.drop_last()).push(vertices[component.last() as int])
    } else {
        members(vertices, component.drop_last())
    }
}

/// What is reported for a component of several nodes with the ids `cycle`.
pub open spec fn general_cycle_diagnostic(cycle: Seq<Seq<char>>) -> DiagnosticView {
    DiagnosticView {
        rule: Rule::GeneralCycle,
        message: "Cycle detected among "@ + decimal(cycle.len()) + " nodes: "@ + joined(
            cycle,
            ", "@,
        ),
        location: LocationView::Path(cycle),
        severity: Severity::Warning,
    }
}

/// The general-cycle findings for the components `components` of a graph with
/// the vertices `vertices`: one for each component of more than one vertex, in
/// the order of the components.
pub open spec fn general_cycle_diagnostics(
    vertices: Seq<Seq<char>>,
    components: Seq<Seq<usize>>,
) -> Seq<DiagnosticView>
    decreases components.len(),
{
    if components.len() == 0 {
        Seq::empty()
    } else if components.last().len() > 1 {
        general_cycle_diagnostics(vertices, components.drop_last()).push(
            general_cycle_diagnostic(members(vertices, components.last())),
        )
    } else {
        general_cycle_diagnostics(vertices, components.drop_last())
    }
}

/// The general-cycle findings for a document: those for the strongly connected
/// components of its graph of distinct node ids and edges between them.
pub open spec fn cycle_diagnostics(d: DocumentModel) -> Seq<DiagnosticView> {
    let vertices = first_ids(d.node_ids());
    general_cycle_diagnostics(
        vertices,
        scc_order(vertices.len(), links_of(vertices, d.edges)),
    )
}

/// Collects the distinct node ids of a document, in the order of their first
/// occurrence.
pub fn distinct_ids(doc: &TreeDocument) -> (vertices: Vec<String>)
    ensures
        texts(vertices@) == first_ids(doc@.node_ids()),
{
    let ghost ids = doc@.node_ids();
    let mut vertices: Vec<String> = Vec::new();
    let mut seen = TextIndex::new(doc.nodes.len());
    let mut i: usize = 0;
    assert(texts(vertices@) =~= first_ids(ids.take(0)));
    assert(seen@ =~= ids.take(0));
    while i < doc.nodes.len()
        invariant
            i <= doc.nodes.len(),
            ids == doc@.node_ids(),
            ids == ids_of(node_models(doc.nodes@)),
            seen.wf(),
            seen@ == ids.take(i as int),
            texts(vertices@) == first_ids(ids.take(i as int)),
        decreases doc.nodes.len() - i,
    {
        let node = &doc.nodes[i];
        proof {
            assert(ids.take(i + 1).drop_last() =~= ids.take(i as int));
            assert(ids.take(i + 1).last() == node.id@);
            assert(ids.take(i + 1) =~= ids.take(i as int).push(node.id@));
        }
        let repeated = seen.contains(&node.id);
        seen.insert(&node.id);
        if !repeated {
            let ghost shown = texts(vertices@);
            vertices.push(node.id.clone());
            assert(texts(vertices@) =~= shown.push(node.id@));
        }
        i = i + 1;
    }
    assert(ids.take(doc.nodes.len() as int) =~= ids);
    vertices
}

/// The vertex that [`vertex_of`] finds has the id, and no later one has it.
pub proof fn lemma_vertex_of(vertices: Seq<Seq<char>>, id: Seq<char>)
    requires
        vertices.len() <= usize::MAX,
    ensures
        match vertex_of(vertices, id) {
            Some(v) => v < vertices.len() && vertices[v as int] == id && forall|j: int|
                v < j < vertices.len() ==> vertices[j] != id,
            None => !vertices.contains(id),
        },
    decreases vertices.len(),
{
    if vertices.len() > 0 && vertices.last() != id {
        let rest = vertices.drop_last();
        lemma_vertex_of(rest, id);
        assert(forall|j: int| 0 <= j < rest.len() ==> rest[j] == vertices[j]);
        if vertices.contains(id) {
            let j = choose|j: int| 0 <= j < vertices.len() && vertices[j] == id;
            assert(rest[j] == id);
        }
    }
}

/// Builds the index of a list of texts.
pub fn index_of_texts(list: &Vec<String>) -> (index: TextIndex)
    ensures
        index.wf(),
        index@ == texts(list@),
{
    let mut index = TextIndex::new(list.len());
    let mut i: usize = 0;
    assert(index@ =~= texts(list@).take(0));
    while i < list.len()
        invariant
            i <= list.len(),
            index.wf(),
            index@ == texts(list@).take(i as int),
        decreases list.len() - i,
    {
        index.insert(&list[i]);
        assert(texts(list@).take(i + 1) =~= texts(list@).take(i as int).push(list@[i as int]@));
        i = i + 1;
    }
    assert(texts(list@).take(list.len() as int) =~= texts(list@));
    index
}

/// Finds the number of the vertex with the id `id`, with the index of the
/// vertices.
pub fn find_vertex(vertices: &TextIndex, id: &String) -> (r: Option<usize>)
    requires
        vertices.wf(),
    ensures
        r == vertex_of(vertices@, id@),
        r matches Some(v) ==> v < vertices@.len(),
{
    let n = vertices.len();
    let r = vertices.last(id);
    proof {
        lemma_vertex_of(vertices@, id@);
        match (r, vertex_of(vertices@, id@)) {
            (Some(a), Some(b)) => {
                if a < b {
                    assert(vertices@[b as int] != id@);
                }
                if b < a {
                    assert(vertices@[a as int] != id@);
                }
            },
            (Some(a), None) => {
                assert(vertices@[a as int] == id@);
            },
            _ => {},
        }
    }
    r
}

/// Collects the ids of the vertices listed in `component`.
pub fn component_ids(vertices: &Vec<String>, component: &Vec<usize>) -> (ids: Vec<String>)
    ensures
        texts(ids@) == members(texts(vertices@), component@),
{
    let ghost all = texts(vertices@);
    let mut ids: Vec<String> = Vec::new();
    let mut i: usize = 0;
    assert(texts(ids@) =~= members(all, component@.take(0)));
    while i < component.len()
        invariant
            i <= component.len(),
            all == texts(vertices@),
            texts(ids@) == members(all, component@.take(i as int)),
        decreases component.len() - i,
    {
        proof {
            assert(component@.take(i + 1).drop_last() =~= component@.take(i as int));
            assert(component@.take(i + 1).last() == component@[i as int]);
        }
        let v = component[i];
        if v < vertices.len() {
            let ghost shown = texts(ids@);
            ids.push(vertices[v].clone());
            assert(texts(ids@) =~= shown.push(vertices@[v as int]@));
        }
        i = i + 1;
    }
    assert(component@.take(component.len() as int) =~= component@);
    ids
}

/// Reports each of `components` that has more than one vertex, by the ids of
/// its vertices. A component of one vertex is no cycle, whether or not an edge
/// leads from the vertex to itself.
pub fn report_components(
    vertices: &Vec<String>,
    components: &Vec<Vec<usize>>,
    diagnostics: &mut Vec<Diagnostic>,
)
    ensures
        diagnostic_views(final(diagnostics)@) == diagnostic_views(old(diagnostics)@)
            + general_cycle_diagnostics(texts(vertices@), lists(components@)),
{
    let ghost all = texts(vertices@);
    let ghost comps = lists(components@);
    let ghost before = diagnostic_views(diagnostics@);
    let mut i: usize = 0;
    assert(diagnostic_views(diagnostics@) =~= before + general_cycle_diagnostics(
        all,
        comps.take(0),
    ));
    while i < components.len()
        invariant
            i <= components.len(),
            all == texts(vertices@),
            comps == lists(components@),
            diagnostic_views(diagnostics@) == before + general_cycle_diagnostics(
                all,
                comps.take(i as int),
            ),
        decreases components.len() - i,
    {
        let component = &components[i];
        proof {
            assert(comps.take(i + 1).drop_last() =~= comps.take(i as int));
            assert(comps.take(i + 1).last() == component@);
        }
        if component.len() > 1 {
            let cycle = component_ids(vertices, component);
            let mut message = String::from_str("Cycle detected among ");
            let count = decimal_string(cycle.len());
            message.append(count.as_str());
            message.append(" nodes: ");
            let list = join(&cycle, ", ");
            message.append(list.as_str());
            let ghost shown = diagnostic_views(diagnostics@);
            let ghost cycle_ids = texts(cycle@);
            diagnostics.push(
                Diagnostic {
                    rule: Rule::GeneralCycle,
                    message,
                    location: Location::Path(cycle),
                    severity: Severity::Warning,
                },
            );
            assert(diagnostic_views(diagnostics@) =~= shown.push(
                general_cycle_diagnostic(cycle_ids),
            ));
        }
        i = i + 1;
    }
    assert(comps.take(components.len() as int) =~= comps);
}

/// Reports the cycles among the nodes of a document: the strongly connected
/// components of more than one node in the graph of its distinct node ids and
/// the edges between them.
fn check_general_cycles(doc: &TreeDocument, diagnostics: &mut Vec<Diagnostic>)
    ensures
        diagnostic_views(final(diagnostics)@) == diagnostic_views(old(diagnostics)@)
            + cycle_diagnostics(doc@),
        cycles_are_plural(cycle_diagnostics(doc@)),
{
    let vertices = distinct_ids(doc);
    let numbers = index_of_texts(&vertices);
    let ghost all = texts(vertices@);
    let ghost em = doc@.edges;
    let mut links: Vec<(usize, usize)> = Vec::new();
    let mut i: usize = 0;
    assert(links@ =~= links_of(all, em.take(0)));
    while i < doc.edges.len()
        invariant
            i <= doc.edges.len(),
            all == texts(vertices@),
            numbers.wf(),
            numbers@ == all,
            em == edge_models(doc.edges@),
            links@ == links_of(all, em.take(i as int)),
            forall|j: int|
                0 <= j < links.len() ==> links@[j].0 < vertices.len() && links@[j].1
                    < vertices.len(),
        decreases doc.edges.len() - i,
    {
        let edge = &doc.edges[i];
        proof {
            assert(em.take(i + 1).drop_last() =~= em.take(i as int));
            assert(em.take(i + 1).last() == edge@);
        }
        match find_vertex(&numbers, &edge.source) {
            Some(a) => match find_vertex(&numbers, &edge.target) {
                Some(b) => {
                    links.push((a, b));
                },
                None => {},
            },
            None => {},
        }
        i = i + 1;
    }
    assert(em.take(doc.edges.len() as int) =~= em);
    let components = strong_components(vertices.len(), &links);
    proof {
        lemma_first_ids(doc@.node_ids());
        lemma_cycles_are_plural(all, links@, lists(components@));
    }
    report_components(&vertices, &components, diagnostics);
}

/// What is reported for a node that cannot be reached from the root.
pub open spec fn orphan_diagnostic(id: Seq<char>, root: Seq<char>) -> DiagnosticView {
    DiagnosticView {
        rule: Rule::OrphanNode,
        message: "Node '"@ + id + "' is not reachable from root node '"@ + root + "'"@,
        location: LocationView::Node(id),
        severity: Severity::Advisory,
    }
}

/// The orphan findings among nodes with the ids `ids`: one for each node that
/// cannot be reached from `root`, in document order.
pub open spec fn orphans_among(ids: Seq<Seq<char>>, edges: Seq<EdgeModel>, root: Seq<char>) -> Seq<
    DiagnosticView,
>
    decreases ids.len(),
{
    if ids.len() == 0 {
        Seq::empty()
    } else if reachable(edges, root, ids.last()) {
        orphans_among(ids.drop_last(), edges, root)
    } else {
        orphans_among(ids.drop_last(), edges, root).push(orphan_diagnostic(ids.last(), root))
    }
}

/// The orphan findings for a document: those among all its nodes where the
/// root is known, none otherwise.
pub open spec fn orphan_diagnostics(d: DocumentModel) -> Seq<DiagnosticView> {
    match known_root(d) {
        Some(root) => orphans_among(d.node_ids(), d.edges, root),
        None => Seq::empty(),
    }
}

/// Reports every node that cannot be reached from the root.
fn check_orphan_nodes(
    doc: &TreeDocument,
    node_ids: &TextIndex,
    sources: &TextIndex,
    diagnostics: &mut Vec<Diagnostic>,
)
    requires
        node_ids.wf(),
        node_ids@ == doc@.node_ids(),
        sources.wf(),
        sources@ == sources_of(doc@.edges),
    ensures
        diagnostic_views(final(diagnostics)@) == diagnostic_views(old(diagnostics)@)
            + orphan_diagnostics(doc@),
{
    let ghost before = diagnostic_views(diagnostics@);
    let root = match find_known_root(doc, node_ids) {
        Some(root) => root,
        None => {
            assert(before =~= before + orphan_diagnostics(doc@));
            return ;
        },
    };
    let ghost ids = doc@.node_ids();
    let ghost em = doc@.edges;
    let active = reached_edges(&doc.edges, sources, root);
    let targets = target_index(&doc.edges);
    let mut i: usize = 0;
    assert(diagnostic_views(diagnostics@) =~= before + orphans_among(ids.take(0), em, root@));
    while i < doc.nodes.len()
        invariant
            i <= doc.nodes.len(),
            ids == doc@.node_ids(),
            em == edge_models(doc.edges@),
            targets.wf(),
            targets@ == crate::reach::targets_of(em),
            crate::reach::marks_reached(em, root@, active@),
            diagnostic_views(diagnostics@) == before + orphans_among(ids.take(i as int), em, root@),
        decreases doc.nodes.len() - i,
    {
        let node = &doc.nodes[i];
        proof {
            assert(ids.take(i + 1).drop_last() =~= ids.take(i as int));
            assert(ids.take(i + 1).last() == node.id@);
        }
        if !is_reached(&doc.edges, &targets, &active, root, &node.id) {
            let mut message = String::from_str("Node '");
            message.append(node.id.as_str());
            message.append("' is not reachable from root node '");
            message.append(root.as_str());
            message.append("'");
            let ghost shown = diagnostic_views(diagnostics@);
            diagnostics.push(
                Diagnostic {
                    rule: Rule::OrphanNode,
                    message,
                    location: Location::Node(node.id.clone()),
                    severity: Severity::Advisory,
                },
            );
            assert(diagnostic_views(diagnostics@) =~= shown.push(
                orphan_diagnostic(node.id@, root@),
            ));
        }
        i = i + 1;
    }
    assert(ids.take(doc.nodes.len() as int) =~= ids);
}

/// The trunk length of a document: the number of trunk edges that a walk from
/// its root takes before it ends, and 0 for a document without root.
pub open spec fn trunk_length_of(d: DocumentModel) -> nat {
    match d.root_node_id {
        Some(root) => trunk_length(d.edges, root),
        None => 0,
    }
}

/// Counts the trunk edges from the root to where the trunk ends: at a node
/// without trunk edge, or at the first node that the walk meets a second time.
fn compute_trunk_length(doc: &TreeDocument) -> (length: usize)
    ensures
        length == trunk_length_of(doc@),
        match doc@.root_node_id {
            Some(root) => trunk_stops_at(doc@.edges, root, length as nat),
            None => length == 0,
        },
{
    match &doc.root_node_id {
        Some(root) => {
            let sources = source_index(&doc.edges);
            let (hops, _looped) = trunk_walk(&doc.edges, &sources, root);
            hops.len()
        },
        None => 0,
    }
}

/// The findings of the five rules on the graph of a document, rule by rule:
/// duplicate ids, dangling edges, a cycle on the trunk, cycles among the nodes,
/// and nodes that cannot be reached from the root.
pub open spec fn semantic_diagnostics(d: DocumentModel) -> Seq<DiagnosticView> {
    duplicate_diagnostics(d.node_ids()) + dangling_diagnostics(d.node_ids(), d.edges)
        + trunk_cycle_diagnostics(d) + cycle_diagnostics(d) + orphan_diagnostics(d)
}

/// Runs the five rules on the graph of a document.
fn validate_semantics(doc: &TreeDocument) -> (r: Vec<Diagnostic>)
    ensures
        diagnostic_views(r@) == semantic_diagnostics(doc@),
        cycles_are_plural(diagnostic_views(r@)),
{
    let mut diagnostics: Vec<Diagnostic> = Vec::new();
    assert(diagnostic_views(diagnostics@) =~= Seq::<DiagnosticView>::empty());
    check_duplicate_ids(doc, &mut diagnostics);
    let node_ids = node_index(doc);
    let sources = source_index(&doc.edges);
    check_dangling_edges(doc, &node_ids, &mut diagnostics);
    check_trunk_cycle(doc, &node_ids, &sources, &mut diagnostics);
    check_general_cycles(doc, &mut diagnostics);
    check_orphan_nodes(doc, &node_ids, &sources, &mut diagnostics);
    assert(diagnostic_views(diagnostics@) =~= semantic_diagnostics(doc@));
    proof {
        lemma_plural_semantics(doc@);
    }
    diagnostics
}

/// The number of edges that are not marked as trunk.
pub open spec fn branch_total(edges: Seq<EdgeModel>) -> nat
    decreases edges.len(),
{
    if edges.len() == 0 {
        0
    } else if edges.last().on_trunk() {
        branch_total(edges.drop_last())
    } else {
        branch_total(edges.drop_last()) + 1
    }
}

/// Counts the edges that are not marked as trunk.
pub fn count_branches(edges: &Vec<Edge>) -> (count: usize)
    ensures
        count == branch_total(edge_models(edges@)),
{
    let ghost em = edge_models(edges@);
    let mut count: usize = 0;
    let mut i: usize = 0;
    assert(em.take(0) =~= Seq::<EdgeModel>::empty());
    while i < edges.len()
        invariant
            i <= edges.len(),
            em == edge_models(edges@),
            count <= i,
            count == branch_total(em.take(i as int)),
        decreases edges.len() - i,
    {
        proof {
            assert(em.take(i + 1).drop_last() =~= em.take(i as int));
            assert(em.take(i + 1).last() == edges@[i as int]@);
        }
        if !edges[i].on_trunk() {
            count = count + 1;
        }
        i = i + 1;
    }
    assert(em.take(edges.len() as int) =~= em);
    count
}

/// The summary counts of a document of the tier `tier`. The counts of nodes
/// and edges are those of the lists as they stand, repeats included.
pub open spec fn stats_of(d: DocumentModel, tier: u8) -> DocumentStats {
    DocumentStats {
        node_count: d.nodes.len() as usize,
        edge_count: d.edges.len() as usize,
        trunk_length: trunk_length_of(d) as usize,
        branch_count: branch_total(d.edges) as usize,
        tier,
    }
}

/// The members of `all` that have the severity `severity`, in their order.
pub open spec fn with_severity(all: Seq<DiagnosticView>, severity: Severity) -> Seq<
    DiagnosticView,
>
    decreases all.len(),
{
    if all.len() == 0 {
        Seq::empty()
    } else if all.last().severity == severity {
        with_severity(all.drop_last(), severity).push(all.last())
    } else {
        with_severity(all.drop_last(), severity)
    }
}

/// The result for a document with the findings `all` and the counts `stats`:
/// the findings sorted by severity, and valid where none of them is an error.
pub open spec fn sorted_result(all: Seq<DiagnosticView>, stats: DocumentStats) -> ValidationResultView {
    ValidationResultView {
        is_valid: with_severity(all, Severity::Error).len() == 0,
        errors: with_severity(all, Severity::Error),
        warnings: with_severity(all, Severity::Warning),
        advisories: with_severity(all, Severity::Advisory),
        stats,
    }
}

/// The result for a JSON value that is no document and breaks the schema: the
/// schema findings alone, and all counts 0.
pub open spec fn rejected_result(schema: Seq<DiagnosticView>) -> ValidationResultView {
    ValidationResultView {
        is_valid: false,
        errors: schema,
        warnings: Seq::empty(),
        advisories: Seq::empty(),
        stats: DocumentStats {
            node_count: 0,
            edge_count: 0,
            trunk_length: 0,
            branch_count: 0,
            tier: 0,
        },
    }
}

/// The result of validating a JSON value of the tier `tier` with the schema
/// findings `schema` that stands for the document `document`, or for none.
/// `None` is the failure of a value that is no document though it breaks no
/// rule of the schema.
pub open spec fn result_of(
    schema: Seq<DiagnosticView>,
    document: Option<DocumentModel>,
    tier: u8,
) -> Option<ValidationResultView> {
    match document {
        Some(d) => Some(sorted_result(schema + semantic_diagnostics(d), stats_of(d, tier))),
        None => if schema.len() > 0 {
            Some(rejected_result(schema))
        } else {
            None
        },
    }
}

/// Sorts findings by severity and decides validity: a document is valid where
/// it has no finding that is an error, whatever else was found.
pub fn sort_findings(all: Vec<Diagnostic>, stats: DocumentStats) -> (r: ValidationResult)
    ensures
        r@ == sorted_result(diagnostic_views(all@), stats),
        r.is_valid <==> r.errors@.len() == 0,
{
    let ghost everything = diagnostic_views(all@);
    let mut errors: Vec<Diagnostic> = Vec::new();
    let mut warnings: Vec<Diagnostic> = Vec::new();
    let mut advisories: Vec<Diagnostic> = Vec::new();
    assert(diagnostic_views(errors@) =~= with_severity(everything.take(0), Severity::Error));
    assert(diagnostic_views(warnings@) =~= with_severity(everything.take(0), Severity::Warning));
    assert(diagnostic_views(advisories@) =~= with_severity(
        everything.take(0),
        Severity::Advisory,
    ));
    for diagnostic in it: all
        invariant
            everything == diagnostic_views(it.seq()),
            diagnostic_views(errors@) == with_severity(
                everything.take(it.index() as int),
                Severity::Error,
            ),
            diagnostic_views(warnings@) == with_severity(
                everything.take(it.index() as int),
                Severity::Warning,
            ),
            diagnostic_views(advisories@) == with_severity(
                everything.take(it.index() as int),
                Severity::Advisory,
            ),
    {
        proof {
            let i = it.index() as int;
            assert(everything.take(i + 1).drop_last() =~= everything.take(i));
            assert(everything.take(i + 1).last() == diagnostic@);
        }
        match diagnostic.severity {
            Severity::Error => {
                let ghost shown = diagnostic_views(errors@);
                errors.push(diagnostic);
                assert(diagnostic_views(errors@) =~= shown.push(diagnostic@));
            },
            Severity::Warning => {
                let ghost shown = diagnostic_views(warnings@);
                warnings.push(diagnostic);
                assert(diagnostic_views(warnings@) =~= shown.push(diagnostic@));
            },
            Severity::Advisory => {
                let ghost shown = diagnostic_views(advisories@);
                advisories.push(diagnostic);
                assert(diagnostic_views(advisories@) =~= shown.push(diagnostic@));
            },
        }
    }
    assert(everything.take(everything.len() as int) =~= everything);
    ValidationResult { is_valid: errors.len() == 0, errors, warnings, advisories, stats }
}

/// Puts the result of a validation together from the schema findings, the
/// document that the value stands for, if any, and the tier of the value.
/// A value that is no document, because of the field that is named in place
/// of the document, is rejected with its schema findings; where the schema
/// has nothing against it either, the validation fails and names the field.
pub fn assemble_result(
    schema_findings: Vec<Diagnostic>,
    document: Result<TreeDocument, String>,
    tier: u8,
) -> (r: Result<ValidationResult, ParseError>)
    ensures
        outcome_is(
            result_of(
                diagnostic_views(schema_findings@),
                match document {
                    Ok(doc) => Some(doc@),
                    Err(_) => None,
                },
                tier,
            ),
            match document {
                Ok(_) => Seq::empty(),
                Err(field) => field@,
            },
            r,
        ),
        r matches Ok(result) ==> (result.is_valid <==> result.errors@.len() == 0),
        are_schema_findings(diagnostic_views(schema_findings@)) ==> (r matches Ok(result)
            ==> cycles_are_plural(diagnostic_views(result.warnings@))),
{
    let doc = match document {
        Ok(doc) => doc,
        Err(field) => {
            if schema_findings.len() > 0 {
                let rejected = ValidationResult {
                    is_valid: false,
                    errors: schema_findings,
                    warnings: Vec::new(),
                    advisories: Vec::new(),
                    stats: DocumentStats {
                        node_count: 0,
                        edge_count: 0,
                        trunk_length: 0,
                        branch_count: 0,
                        tier: 0,
                    },
                };
                assert(diagnostic_views(rejected.warnings@) =~= Seq::<DiagnosticView>::empty());
                assert(diagnostic_views(rejected.advisories@) =~= Seq::<DiagnosticView>::empty());
                return Ok(rejected);
            }
            return Err(ParseError::InvalidDocument(field));
        },
    };
    let ghost schema = diagnostic_views(schema_findings@);
    let mut all = schema_findings;
    let mut semantic = validate_semantics(&doc);
    let ghost found = diagnostic_views(semantic@);
    all.append(&mut semantic);
    assert(diagnostic_views(all@) =~= schema + found);
    proof {
        if are_schema_findings(schema) {
            lemma_plural_result(schema, found, stats_of(doc@, tier));
        }
    }
    let stats = DocumentStats {
        node_count: doc.nodes.len(),
        edge_count: doc.edges.len(),
        trunk_length: compute_trunk_length(&doc),
        branch_count: count_branches(&doc.edges),
        tier,
    };
    Ok(sort_findings(all, stats))
}

/// Whether `r` is the outcome `expected`: that result, or the failure of a
/// value that is no document because of the field `fault`.
pub open spec fn outcome_is(
    expected: Option<ValidationResultView>,
    fault: Seq<char>,
    r: Result<ValidationResult, ParseError>,
) -> bool {
    match expected {
        Some(result) => r matches Ok(got) && got@ == result,
        None => r matches Err(ParseError::InvalidDocument(field)) && field@ == fault,
    }
}

/// The result of validating a JSON value: that of its findings under the
/// baseline schema, the document that it stands for, if any, and its tier.
/// `None` is the failure of a value that is no document though the schema has
/// nothing against it.
pub open spec fn validation_of(v: JsonModel) -> Option<ValidationResultView> {
    result_of(baseline_findings(v), document_of(v), tier_of(v))
}

/// Whether `r` is the outcome of validating `text`. A text that is not
/// well-formed JSON fails as such. Any other text has the result of the JSON
/// value that it stands for.
pub open spec fn validates(text: Seq<char>, r: Result<ValidationResult, ParseError>) -> bool {
    match json_text_value(text) {
        None => r matches Err(e) && e is InvalidJson,
        Some(v) => outcome_is(validation_of(v), first_fault(v), r),
    }
}

/// Validates a document given as JSON text: against the baseline schema, then
/// by the five rules on its graph. The result lists the findings by severity
/// with the summary counts of the document. The baseline schema must load.
pub fn validate_document(json_str: &str) -> (r: Result<ValidationResult, ParseError>)
    requires
        baseline_schema_loads(),
    ensures
        validates(json_str@, r),
        r matches Ok(result) ==> (result.is_valid <==> result.errors@.len() == 0),
        r matches Ok(result) ==> cycles_are_plural(diagnostic_views(result.warnings@)),
{
    let value = match parse_value(json_str) {
        Ok(value) => value,
        Err(e) => {
            return Err(e);
        },
    };
    let schema_findings = validate_schema(&value);
    let tier = detect_tier(&value);
    let tree = lift_json(&value);
    let document = document_from_json(&tree);
    assemble_result(schema_findings, document, tier)
}

/// Validates a document given as JSON text where the baseline schema loads,
/// and returns `None` where it does not.
pub fn try_validate_document(json_str: &str) -> (r: Option<Result<ValidationResult, ParseError>>)
    ensures
        r is Some <==> baseline_schema_loads(),
        r matches Some(outcome) ==> validates(json_str@, outcome),
        r matches Some(Ok(result)) ==> (result.is_valid <==> result.errors@.len() == 0)
            && cycles_are_plural(diagnostic_views(result.warnings@)),
{
    if baseline_schema_ready() {
        Some(validate_document(json_str))
    } else {
        None
    }
}

} // verus!
