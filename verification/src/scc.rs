use vstd::prelude::*;

verus! {

/// The marker of petgraph for graphs whose edges have a direction.
#[verifier::external_type_specification]
#[verifier::external_body]
pub struct ExDirected(petgraph::Directed);

/// The graph type of petgraph.
#[verifier::external_type_specification]
#[verifier::external_body]
#[verifier::reject_recursive_types(N)]
#[verifier::reject_recursive_types(E)]
#[verifier::reject_recursive_types(Ty)]
#[verifier::reject_recursive_types(Ix)]
pub struct ExGraph<N, E, Ty, Ix>(petgraph::graph::Graph<N, E, Ty, Ix>);

/// A directed graph without weights, its vertices numbered from 0 in the order
/// in which they were added.
pub type LinkGraph = petgraph::graph::Graph<(), (), petgraph::Directed, usize>;

/// The number of vertices of a graph.
pub uninterp spec fn graph_order(g: LinkGraph) -> nat;

/// The edges of a graph, each as the pair of its source and its target, in the
/// order in which they were added.
pub uninterp spec fn graph_links(g: LinkGraph) -> Seq<(usize, usize)>;

/// The strongly connected components that `petgraph::algo::tarjan_scc` finds in
/// the graph with `order` vertices and the edges `links`, in the order in which
/// it returns them.
pub uninterp spec fn scc_order(order: nat, links: Seq<(usize, usize)>) -> Seq<Seq<usize>>;

/// The views of a sequence of lists of vertices.
pub open spec fn lists(v: Seq<Vec<usize>>) -> Seq<Seq<usize>> {
    v.map_values(|c: Vec<usize>| c@)
}

/// Whether some edge of `links` leads from `a` to `b`.
pub open spec fn joins(links: Seq<(usize, usize)>, a: usize, b: usize) -> bool {
    links.contains((a, b))
}

/// Whether `walk` is a list of vertices in which each has an edge to the next.
pub open spec fn is_walk(links: Seq<(usize, usize)>, walk: Seq<usize>) -> bool {
    &&& walk.len() > 0
    &&& forall|i: int| 0 <= i < walk.len() - 1 ==> joins(links, #[trigger] walk[i], walk[i + 1])
}

/// Whether a walk leads from `a` to `b` and one leads back.
pub open spec fn connected_both_ways(links: Seq<(usize, usize)>, a: usize, b: usize) -> bool {
    &&& exists|walk: Seq<usize>| #[trigger]
        is_walk(links, walk) && walk.first() == a && walk.last() == b
    &&& exists|walk: Seq<usize>| #[trigger]
        is_walk(links, walk) && walk.first() == b && walk.last() == a
}

/// Whether the vertex `v` stands in one of `components`.
pub open spec fn occurs(components: Seq<Seq<usize>>, v: usize) -> bool {
    exists|c: int, i: int|
        0 <= c < components.len() && 0 <= i < components[c].len() && (
        #[trigger] components[c][i]) == v
}

/// Whether `components` are the strongly connected components of the graph
/// with `order` vertices and the edges `links`: every vertex stands in exactly
/// one place, and two vertices stand in the same component exactly where
/// walks lead from each to the other.
pub open spec fn are_components(
    order: nat,
    links: Seq<(usize, usize)>,
    components: Seq<Seq<usize>>,
) -> bool {
    &&& forall|c: int, i: int|
        0 <= c < components.len() && 0 <= i < components[c].len() ==> (
        #[trigger] components[c][i]) < order
    &&& forall|v: usize| v < order ==> #[trigger] occurs(components, v)
    &&& forall|c: int, i: int, d: int, j: int|
        0 <= c < components.len() && 0 <= i < components[c].len() && 0 <= d < components.len()
            && 0 <= j < components[d].len() && (#[trigger] components[c][i]) == (
        #[trigger] components[d][j]) ==> c == d && i == j
    &&& forall|c: int, i: int, d: int, j: int|
        0 <= c < components.len() && 0 <= i < components[c].len() && 0 <= d < components.len()
            && 0 <= j < components[d].len() ==> (c == d <==> connected_both_ways(
            links,
            #[trigger] components[c][i],
            #[trigger] components[d][j],
        ))
}

/// `Graph::with_capacity` of petgraph, asked for no capacity: a graph without
/// vertices and edges.
#[verifier::external_body]
fn empty_graph() -> (g: LinkGraph)
    ensures
        graph_order(g) == 0,
        graph_links(g) == Seq::<(usize, usize)>::empty(),
{
    petgraph::graph::Graph::with_capacity(0, 0)
}

/// `Graph::add_node` of petgraph: the graph gets one more vertex, numbered
/// after those that it has, and keeps its edges. The number is returned.
#[verifier::external_body]
fn add_vertex(g: &mut LinkGraph) -> (v: usize)
    ensures
        v == graph_order(*old(g)),
        graph_order(*final(g)) == graph_order(*old(g)) + 1,
        graph_links(*final(g)) == graph_links(*old(g)),
{
    g.add_node(()).index()
}

/// `Graph::add_edge` of petgraph: the graph gets one more edge, from `a` to
/// `b`, after those that it has, and keeps its vertices. The call panics where
/// `a` or `b` is no vertex of the graph.
#[verifier::external_body]
fn add_link(g: &mut LinkGraph, a: usize, b: usize)
    requires
        a < graph_order(*old(g)),
        b < graph_order(*old(g)),
    ensures
        graph_order(*final(g)) == graph_order(*old(g)),
        graph_links(*final(g)) == graph_links(*old(g)).push((a, b)),
{
    g.add_edge(petgraph::graph::NodeIndex::new(a), petgraph::graph::NodeIndex::new(b), ());
}

/// `petgraph::algo::tarjan_scc`: the strongly connected components of the
/// graph, each as the list of its vertices. It is taken on trust that they
/// are the strongly connected components, and that the result depends on the
/// vertices and edges of the graph alone. The search is recursive, as deep as
/// the longest path that it follows.
#[verifier::external_body]
fn tarjan_components(g: &LinkGraph) -> (r: Vec<Vec<usize>>)
    ensures
        lists(r@) == scc_order(graph_order(*g), graph_links(*g)),
        are_components(graph_order(*g), graph_links(*g), lists(r@)),
{
    petgraph::algo::tarjan_scc(g).into_iter().map(
        |c| c.into_iter().map(|v| v.index()).collect(),
    ).collect()
}

/// Finds the strongly connected components of the graph with `order`
/// vertices and the edges `links`.
pub fn strong_components(order: usize, links: &Vec<(usize, usize)>) -> (r: Vec<Vec<usize>>)
    requires
        forall|i: int| 0 <= i < links.len() ==> links@[i].0 < order && links@[i].1 < order,
    ensures
        lists(r@) == scc_order(order as nat, links@),
        are_components(order as nat, links@, lists(r@)),
{
    let mut g = empty_graph();
    let mut v: usize = 0;
    while v < order
        invariant
            v <= order,
            graph_order(g) == v,
            graph_links(g) == Seq::<(usize, usize)>::empty(),
        decreases order - v,
    {
        let _ = add_vertex(&mut g);
        v = v + 1;
    }
    let mut i: usize = 0;
    while i < links.len()
        invariant
            i <= links.len(),
            graph_order(g) == order,
            graph_links(g) == links@.take(i as int),
            forall|j: int| 0 <= j < links.len() ==> links@[j].0 < order && links@[j].1 < order,
        decreases links.len() - i,
    {
        let (a, b) = links[i];
        add_link(&mut g, a, b);
        assert(links@.take(i + 1) =~= links@.take(i as int).push((a, b)));
        i = i + 1;
    }
    assert(links@.take(links.len() as int) =~= links@);
    tarjan_components(&g)
}

} // verus!
