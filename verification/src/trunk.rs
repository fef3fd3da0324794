use vstd::prelude::*;

use crate::index::{lemma_positions, TextIndex};
use crate::types::{edge_models, Edge, EdgeModel};

verus! {

/// Index of the trunk edge that leaves `source`. Where several trunk edges share
/// a source, the last one in document order counts.
pub open spec fn trunk_edge(edges: Seq<EdgeModel>, source: Seq<char>) -> Option<int>
    decreases edges.len(),
{
    if edges.len() == 0 {
        None
    } else if edges.last().on_trunk() && edges.last().source == source {
        Some(edges.len() - 1)
    } else {
        trunk_edge(edges.drop_last(), source)
    }
}

/// The node that the trunk leads to from `source`, if the trunk goes on there.
pub open spec fn trunk_target(edges: Seq<EdgeModel>, source: Seq<char>) -> Option<Seq<char>> {
    match trunk_edge(edges, source) {
        Some(i) => Some(edges[i].target),
        None => None,
    }
}

/// The node reached from `root` after `k` trunk edges, if the trunk is that long.
pub open spec fn trunk_node(edges: Seq<EdgeModel>, root: Seq<char>, k: nat) -> Option<Seq<char>>
    decreases k,
{
    if k == 0 {
        Some(root)
    } else {
        match trunk_node(edges, root, (k - 1) as nat) {
            Some(n) => trunk_target(edges, n),
            None => None,
        }
    }
}

/// Whether a walk along the trunk takes the edge that leaves its `i`-th node:
/// the node has a trunk edge and has not been visited before.
pub open spec fn trunk_advances(edges: Seq<EdgeModel>, root: Seq<char>, i: nat) -> bool {
    &&& trunk_node(edges, root, i + 1) is Some
    &&& forall|j: nat| j < i ==> trunk_node(edges, root, j) != trunk_node(edges, root, i)
}

/// Whether a walk along the trunk from `root` ends after exactly `k` edges: at a
/// node without trunk edge, or at the first node that it meets a second time.
pub open spec fn trunk_stops_at(edges: Seq<EdgeModel>, root: Seq<char>, k: nat) -> bool {
    &&& forall|i: nat| i < k ==> trunk_advances(edges, root, i)
    &&& !trunk_advances(edges, root, k)
}

/// The number of trunk edges that a walk from `root` takes before it ends.
pub open spec fn trunk_length(edges: Seq<EdgeModel>, root: Seq<char>) -> nat {
    choose|k: nat| trunk_stops_at(edges, root, k)
}

/// Whether the walk from `root` ends by meeting a node a second time.
pub open spec fn trunk_loops(edges: Seq<EdgeModel>, root: Seq<char>) -> bool {
    trunk_node(edges, root, trunk_length(edges, root) + 1) is Some
}

/// The first `n` nodes of the walk from `root`.
pub open spec fn trunk_nodes(edges: Seq<EdgeModel>, root: Seq<char>, n: nat) -> Seq<Seq<char>> {
    Seq::new(n, |i: int| trunk_node(edges, root, i as nat).unwrap())
}

/// What [`trunk_walk`] returns: the edges taken, in order, and how the walk ended.
pub open spec fn trunk_walked(
    edges: Seq<EdgeModel>,
    root: Seq<char>,
    hops: Seq<usize>,
    looped: bool,
) -> bool {
    &&& hops.len() == trunk_length(edges, root)
    &&& looped == trunk_loops(edges, root)
    &&& trunk_stops_at(edges, root, hops.len())
    &&& forall|i: int|
        0 <= i < hops.len() ==> trunk_edge(edges, trunk_node(edges, root, i as nat).unwrap())
            == Some(#[trigger] hops[i] as int)
}

/// A walk ends at one place only.
pub proof fn lemma_trunk_stop_unique(edges: Seq<EdgeModel>, root: Seq<char>, a: nat, b: nat)
    requires
        trunk_stops_at(edges, root, a),
        trunk_stops_at(edges, root, b),
    ensures
        a == b,
{
    if a < b {
        assert(trunk_advances(edges, root, a));
    }
    if b < a {
        assert(trunk_advances(edges, root, b));
    }
}

/// What [`trunk_edge`] finds is a trunk edge from `source`, and no later edge is one.
pub proof fn lemma_trunk_edge(edges: Seq<EdgeModel>, source: Seq<char>)
    ensures
        match trunk_edge(edges, source) {
            Some(i) => {
                &&& 0 <= i < edges.len()
                &&& edges[i].on_trunk()
                &&& edges[i].source == source
                &&& forall|j: int|
                    i < j < edges.len() ==> !(#[trigger] edges[j].on_trunk() && edges[j].source
                        == source)
            },
            None => forall|j: int|
                0 <= j < edges.len() ==> !(#[trigger] edges[j].on_trunk() && edges[j].source
                    == source),
        },
    decreases edges.len(),
{
    if edges.len() > 0 && !(edges.last().on_trunk() && edges.last().source == source) {
        let rest = edges.drop_last();
        lemma_trunk_edge(rest, source);
        assert(forall|j: int| 0 <= j < rest.len() ==> rest[j] == edges[j]);
    }
}

/// A sequence of distinct numbers below `n` has at most `n` members.
pub proof fn lemma_distinct_below(s: Seq<usize>, n: nat)
    requires
        s.no_duplicates(),
        forall|i: int| 0 <= i < s.len() ==> s[i] < n,
    ensures
        s.len() <= n,
    decreases n,
{
    if s.len() > 0 {
        if n == 0 {
            assert(s[0] < n);
        } else if exists|i: int| 0 <= i < s.len() && s[i] == n - 1 {
            let i = choose|i: int| 0 <= i < s.len() && s[i] == n - 1;
            let rest = s.remove(i);
            assert forall|a: int| 0 <= a < rest.len() implies rest[a] < n - 1 by {
                if a < i {
                    assert(rest[a] == s[a]);
                } else {
                    assert(rest[a] == s[a + 1]);
                }
            }
            assert forall|a: int, b: int|
                0 <= a < rest.len() && 0 <= b < rest.len() && a != b implies rest[a] != rest[b] by {
                let a0 = if a < i { a } else { a + 1 };
                let b0 = if b < i { b } else { b + 1 };
                assert(rest[a] == s[a0]);
                assert(rest[b] == s[b0]);
            }
            lemma_distinct_below(rest, (n - 1) as nat);
        } else {
            lemma_distinct_below(s, (n - 1) as nat);
        }
    }
}

/// The sources of a list of edges.
pub open spec fn sources_of(edges: Seq<EdgeModel>) -> Seq<Seq<char>> {
    edges.map_values(|e: EdgeModel| e.source)
}

/// A trunk edge from `source` that no later trunk edge from `source` follows
/// is the trunk edge that leaves `source`.
pub proof fn lemma_trunk_edge_found(edges: Seq<EdgeModel>, source: Seq<char>, e: int)
    requires
        0 <= e < edges.len(),
        edges[e].on_trunk(),
        edges[e].source == source,
        forall|j: int|
            e < j < edges.len() ==> !(#[trigger] edges[j].on_trunk() && edges[j].source == source),
    ensures
        trunk_edge(edges, source) == Some(e),
{
    lemma_trunk_edge(edges, source);
}

/// Where no edge from `source` is a trunk edge, no trunk edge leaves `source`.
pub proof fn lemma_trunk_edge_missing(edges: Seq<EdgeModel>, source: Seq<char>)
    requires
        forall|j: int|
            0 <= j < edges.len() ==> !(#[trigger] edges[j].on_trunk() && edges[j].source
                == source),
    ensures
        trunk_edge(edges, source) is None,
{
    lemma_trunk_edge(edges, source);
}

/// Builds the index of the sources of `edges`.
pub fn source_index(edges: &Vec<Edge>) -> (index: TextIndex)
    ensures
        index.wf(),
        index@ == sources_of(edge_models(edges@)),
{
    let mut index = TextIndex::new(edges.len());
    let mut i: usize = 0;
    while i < edges.len()
        invariant
            i <= edges.len(),
            index.wf(),
            index@ == sources_of(edge_models(edges@)).take(i as int),
        decreases edges.len() - i,
    {
        index.insert(&edges[i].source);
        assert(sources_of(edge_models(edges@)).take(i + 1) =~= sources_of(
            edge_models(edges@),
        ).take(i as int).push(edges@[i as int].source@));
        i = i + 1;
    }
    assert(sources_of(edge_models(edges@)).take(edges.len() as int) =~= sources_of(
        edge_models(edges@),
    ));
    index
}

/// Finds the trunk edge that leaves `source`, with the index of the sources
/// of the edges.
pub fn find_trunk_edge(edges: &Vec<Edge>, sources: &TextIndex, source: &String) -> (r: Option<
    usize,
>)
    requires
        sources.wf(),
        sources@ == sources_of(edge_models(edges@)),
    ensures
        match r {
            Some(i) => i < edges.len() && trunk_edge(edge_models(edges@), source@) == Some(
                i as int,
            ),
            None => trunk_edge(edge_models(edges@), source@) is None,
        },
{
    let ghost em = edge_models(edges@);
    let places = sources.positions(source);
    proof {
        lemma_positions(sources@, source@);
    }
    let mut i = places.len();
    while i > 0
        invariant
            i <= places.len(),
            em == edge_models(edges@),
            em.len() <= usize::MAX,
            sources@ == sources_of(em),
            places@ == crate::index::positions_of(sources@, source@),
            forall|j: int|
                0 <= j < places.len() ==> (#[trigger] places@[j]) < em.len() && em[places@[j] as int].source
                    == source@,
            forall|j: int, k: int|
                0 <= j < k < places.len() ==> (#[trigger] places@[j]) < (#[trigger] places@[k]),
            forall|p: int|
                0 <= p < em.len() && em[p].source == source@ ==> #[trigger] places@.contains(
                    p as usize,
                ),
            forall|j: int| i <= j < places.len() ==> !em[(#[trigger] places@[j]) as int].on_trunk(),
        decreases i,
    {
        i = i - 1;
        let e = places[i];
        if edges[e].on_trunk() {
            proof {
                assert forall|j: int| e < j < em.len() implies !(#[trigger] em[j].on_trunk()
                    && em[j].source == source@) by {
                    if em[j].source == source@ {
                        assert(places@.contains(j as usize));
                        let k = choose|k: int| 0 <= k < places.len() && places@[k] == j as usize;
                        if k < i {
                            assert(places@[k] < places@[i as int]);
                        }
                        assert(!em[places@[k] as int].on_trunk());
                    }
                }
                lemma_trunk_edge_found(em, source@, e as int);
            }
            return Some(e);
        }
    }
    proof {
        assert forall|j: int| 0 <= j < em.len() implies !(#[trigger] em[j].on_trunk()
            && em[j].source == source@) by {
            if em[j].source == source@ {
                assert(places@.contains(j as usize));
                let k = choose|k: int| 0 <= k < places.len() && places@[k] == j as usize;
                assert(!em[places@[k] as int].on_trunk());
            }
        }
        lemma_trunk_edge_missing(em, source@);
    }
    None
}

/// A list of `n` marks, none of them set.
pub fn no_marks(n: usize) -> (v: Vec<bool>)
    ensures
        v@.len() == n,
        forall|i: int| 0 <= i < n ==> !v@[i],
{
    let mut v: Vec<bool> = Vec::new();
    let mut i: usize = 0;
    while i < n
        invariant
            i <= n,
            v@.len() == i,
            forall|j: int| 0 <= j < i ==> !v@[j],
        decreases n - i,
    {
        v.push(false);
        i = i + 1;
    }
    v
}

/// Walks the trunk from `root` until it ends: at a node without trunk edge, or
/// at the first node met a second time. Returns the edges taken, in order, and
/// whether the walk ended at a node met before.
pub fn trunk_walk(edges: &Vec<Edge>, sources: &TextIndex, root: &String) -> (r: (Vec<usize>, bool))
    requires
        sources.wf(),
        sources@ == sources_of(edge_models(edges@)),
    ensures
        trunk_walked(edge_models(edges@), root@, r.0@, r.1),
{
    let ghost em = edge_models(edges@);
    let mut hops: Vec<usize> = Vec::new();
    let mut taken = no_marks(edges.len());
    let mut current: &String = root;
    let mut looped = false;
    loop
        invariant_except_break
            !looped,
        invariant
            em == edge_models(edges@),
            sources.wf(),
            sources@ == sources_of(em),
            taken@.len() == edges.len(),
            hops@.no_duplicates(),
            forall|i: int| 0 <= i < hops.len() ==> hops@[i] < edges.len(),
            forall|e: int| 0 <= e < edges.len() ==> (#[trigger] taken@[e] <==> hops@.contains(e as usize)),
            trunk_node(em, root@, hops.len() as nat) == Some(current@),
            forall|i: nat| i < hops.len() ==> trunk_advances(em, root@, i),
            forall|i: int|
                0 <= i < hops.len() ==> trunk_edge(em, trunk_node(em, root@, i as nat).unwrap())
                    == Some(#[trigger] hops@[i] as int),
        ensures
            trunk_stops_at(em, root@, hops.len() as nat),
            looped == trunk_node(em, root@, (hops.len() + 1) as nat) is Some,
            forall|i: int|
                0 <= i < hops.len() ==> trunk_edge(em, trunk_node(em, root@, i as nat).unwrap())
                    == Some(#[trigger] hops@[i] as int),
        decreases edges.len() - hops.len(),
    {
        let ghost k = hops.len() as nat;
        proof {
            lemma_distinct_below(hops@, edges.len() as nat);
            lemma_trunk_edge(em, current@);
        }
        match find_trunk_edge(edges, sources, current) {
            None => {
                assert(trunk_node(em, root@, k + 1) is None);
                break ;
            },
            Some(e) => {
                assert(trunk_node(em, root@, k + 1) == Some(em[e as int].target));
                if taken[e] {
                    proof {
                        assert(hops@.contains(e));
                        let j = choose|j: int| 0 <= j < hops.len() && hops@[j] == e;
                        assert(trunk_advances(em, root@, j as nat));
                        assert(trunk_node(em, root@, (j + 1) as nat) is Some);
                        assert(trunk_node(em, root@, j as nat) is Some);
                        lemma_trunk_edge(em, trunk_node(em, root@, j as nat).unwrap());
                        assert(trunk_node(em, root@, j as nat) == trunk_node(em, root@, k));
                    }
                    looped = true;
                    break ;
                }
                proof {
                    assert(!hops@.contains(e));
                    assert forall|j: nat| j < k implies trunk_node(em, root@, j) != trunk_node(
                        em,
                        root@,
                        k,
                    ) by {
                        if trunk_node(em, root@, j) == trunk_node(em, root@, k) {
                            assert(hops@[j as int] == e);
                        }
                    }
                    assert(trunk_advances(em, root@, k));
                    lemma_distinct_below(hops@.push(e), edges.len() as nat);
                }
                let ghost before = hops@;
                taken.set(e, true);
                hops.push(e);
                proof {
                    assert forall|f: int| 0 <= f < edges.len() implies (#[trigger] taken@[f]
                        <==> hops@.contains(f as usize)) by {
                        if f == e {
                            assert(hops@[before.len() as int] == e);
                        } else if before.contains(f as usize) {
                            let p = choose|p: int| 0 <= p < before.len() && before[p] == f as usize;
                            assert(hops@[p] == f as usize);
                        }
                    }
                }
                current = &edges[e].target;
            },
        }
    }
    proof {
        let k = choose|k: nat| trunk_stops_at(em, root@, k);
        lemma_trunk_stop_unique(em, root@, k, hops.len() as nat);
    }
    (hops, looped)
}

} // verus!
