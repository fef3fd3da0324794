use std::collections::VecDeque;

use vstd::prelude::*;

use crate::index::{lemma_positions, positions_of, TextIndex};
use crate::trunk::{lemma_distinct_below, no_marks, sources_of};
use crate::types::{edge_models, Edge, EdgeModel};

verus! {

/// Whether some edge leads from `a` to `b`. Trunk marks play no part.
pub open spec fn linked(edges: Seq<EdgeModel>, a: Seq<char>, b: Seq<char>) -> bool {
    exists|i: int| 0 <= i < edges.len() && (#[trigger] edges[i]).source == a && edges[i].target == b
}

/// Whether `route` is a list of ids in which each is linked to the next.
pub open spec fn is_route(edges: Seq<EdgeModel>, route: Seq<Seq<char>>) -> bool {
    &&& route.len() > 0
    &&& forall|i: int| 0 <= i < route.len() - 1 ==> linked(edges, #[trigger] route[i], route[i + 1])
}

/// Whether `to` can be reached from `from` along edges, in their direction.
/// Every id can be reached from itself.
pub open spec fn reachable(edges: Seq<EdgeModel>, from: Seq<char>, to: Seq<char>) -> bool {
    exists|route: Seq<Seq<char>>| #[trigger]
        is_route(edges, route) && route.first() == from && route.last() == to
}

/// Whether the marks `active` on the edges are closed: every edge that leaves
/// `root` is marked, and so is every edge that leaves the target of a marked one.
pub open spec fn closed_marks(edges: Seq<EdgeModel>, root: Seq<char>, active: Seq<bool>) -> bool {
    &&& active.len() == edges.len()
    &&& forall|e: int| 0 <= e < edges.len() && (#[trigger] edges[e]).source == root ==> active[e]
    &&& forall|f: int, e: int|
        0 <= f < edges.len() && 0 <= e < edges.len() && #[trigger] active[f] && edges[f].target == (
        #[trigger] edges[e]).source ==> active[e]
}

/// Whether the marks `active` on the edges say which edges leave an id that
/// can be reached from `root`.
pub open spec fn marks_reached(edges: Seq<EdgeModel>, root: Seq<char>, active: Seq<bool>) -> bool {
    &&& active.len() == edges.len()
    &&& forall|e: int|
        0 <= e < edges.len() ==> (#[trigger] active[e] <==> reachable(edges, root, edges[e].source))
}

/// Every id can be reached from itself.
pub proof fn lemma_reach_self(edges: Seq<EdgeModel>, a: Seq<char>)
    ensures
        reachable(edges, a, a),
{
    let route = seq![a];
    assert(is_route(edges, route));
    assert(route.first() == a && route.last() == a);
}

/// What can be reached extends along each edge.
pub proof fn lemma_reach_step(edges: Seq<EdgeModel>, from: Seq<char>, e: int)
    requires
        0 <= e < edges.len(),
        reachable(edges, from, edges[e].source),
    ensures
        reachable(edges, from, edges[e].target),
{
    let route = choose|route: Seq<Seq<char>>| #[trigger]
        is_route(edges, route) && route.first() == from && route.last() == edges[e].source;
    let longer = route.push(edges[e].target);
    assert forall|i: int| 0 <= i < longer.len() - 1 implies linked(
        edges,
        #[trigger] longer[i],
        longer[i + 1],
    ) by {
        if i < route.len() - 1 {
            assert(longer[i] == route[i] && longer[i + 1] == route[i + 1]);
            assert(linked(edges, route[i], route[i + 1]));
        } else {
            assert(longer[i] == edges[e].source);
        }
    }
    assert(is_route(edges, longer));
    assert(longer.first() == from && longer.last() == edges[e].target);
}

/// What can be reached is the start itself, or the target of an edge that
/// leaves something that can be reached.
pub proof fn lemma_reach_last(edges: Seq<EdgeModel>, from: Seq<char>, to: Seq<char>)
    requires
        reachable(edges, from, to),
        to != from,
    ensures
        exists|e: int|
            0 <= e < edges.len() && reachable(edges, from, (#[trigger] edges[e]).source)
                && edges[e].target == to,
{
    let route = choose|route: Seq<Seq<char>>| #[trigger]
        is_route(edges, route) && route.first() == from && route.last() == to;
    let n = route.len() as int;
    assert(n >= 2);
    assert(linked(edges, route[n - 2], route[n - 2 + 1]));
    let e = choose|i: int|
        0 <= i < edges.len() && (#[trigger] edges[i]).source == route[n - 2] && edges[i].target
            == route[n - 1];
    let shorter = route.drop_last();
    assert forall|i: int| 0 <= i < shorter.len() - 1 implies linked(
        edges,
        #[trigger] shorter[i],
        shorter[i + 1],
    ) by {
        assert(shorter[i] == route[i] && shorter[i + 1] == route[i + 1]);
        assert(linked(edges, route[i], route[i + 1]));
    }
    assert(is_route(edges, shorter));
    assert(shorter.first() == from && shorter.last() == edges[e].source);
}

/// Closed marks cover every edge at the end of a route from `root`.
proof fn lemma_closed_covers(
    edges: Seq<EdgeModel>,
    root: Seq<char>,
    active: Seq<bool>,
    route: Seq<Seq<char>>,
    e: int,
)
    requires
        closed_marks(edges, root, active),
        is_route(edges, route),
        route.first() == root,
        0 <= e < edges.len(),
        route.last() == edges[e].source,
    ensures
        active[e],
    decreases route.len(),
{
    let n = route.len() as int;
    if n >= 2 {
        assert(linked(edges, route[n - 2], route[n - 2 + 1]));
        let f = choose|i: int|
            0 <= i < edges.len() && (#[trigger] edges[i]).source == route[n - 2]
                && edges[i].target == route[n - 1];
        let shorter = route.drop_last();
        assert forall|i: int| 0 <= i < shorter.len() - 1 implies linked(
            edges,
            #[trigger] shorter[i],
            shorter[i + 1],
        ) by {
            assert(shorter[i] == route[i] && shorter[i + 1] == route[i + 1]);
            assert(linked(edges, route[i], route[i + 1]));
        }
        lemma_closed_covers(edges, root, active, shorter, f);
        assert(active[f]);
    }
}

/// The targets of a list of edges.
pub open spec fn targets_of(edges: Seq<EdgeModel>) -> Seq<Seq<char>> {
    edges.map_values(|e: EdgeModel| e.target)
}

/// Builds the index of the targets of `edges`.
pub fn target_index(edges: &Vec<Edge>) -> (index: TextIndex)
    ensures
        index.wf(),
        index@ == targets_of(edge_models(edges@)),
{
    let mut index = TextIndex::new(edges.len());
    let mut i: usize = 0;
    while i < edges.len()
        invariant
            i <= edges.len(),
            index.wf(),
            index@ == targets_of(edge_models(edges@)).take(i as int),
        decreases edges.len() - i,
    {
        index.insert(&edges[i].target);
        assert(targets_of(edge_models(edges@)).take(i + 1) =~= targets_of(
            edge_models(edges@),
        ).take(i as int).push(edges@[i as int].target@));
        i = i + 1;
    }
    assert(targets_of(edge_models(edges@)).take(edges.len() as int) =~= targets_of(
        edge_models(edges@),
    ));
    index
}

/// Whether `listed` lists the marked places of `active`, each once.
pub open spec fn lists_marks(active: Seq<bool>, listed: Seq<usize>) -> bool {
    &&& listed.no_duplicates()
    &&& forall|p: int| 0 <= p < listed.len() ==> (#[trigger] listed[p]) < active.len()
    &&& forall|e: int| 0 <= e < active.len() ==> (#[trigger] active[e] <==> listed.contains(e as usize))
}

/// Marks each of `places` that is not marked yet, and puts it at the end of
/// `queue`. The places `done` have left the queue before.
fn mark_all(
    places: &Vec<usize>,
    active: &mut Vec<bool>,
    queue: &mut VecDeque<usize>,
    Ghost(done): Ghost<Seq<usize>>,
)
    requires
        forall|j: int| 0 <= j < places.len() ==> (#[trigger] places@[j]) < old(active)@.len(),
        lists_marks(old(active)@, done + old(queue)@),
    ensures
        final(active)@.len() == old(active)@.len(),
        lists_marks(final(active)@, done + final(queue)@),
        forall|j: int| 0 <= j < places.len() ==> final(active)@[(#[trigger] places@[j]) as int],
        forall|e: int|
            0 <= e < final(active)@.len() && #[trigger] final(active)@[e] ==> old(active)@[e]
                || places@.contains(e as usize),
        forall|e: int| 0 <= e < old(active)@.len() && old(active)@[e] ==> #[trigger] final(active)@[e],
{
    let ghost first_active = active@;
    assert(active@.len() == active.len());
    let mut j: usize = 0;
    while j < places.len()
        invariant
            j <= places.len(),
            active@.len() == first_active.len(),
            active@.len() <= usize::MAX,
            forall|i: int| 0 <= i < places.len() ==> (#[trigger] places@[i]) < active@.len(),
            lists_marks(active@, done + queue@),
            forall|i: int| 0 <= i < j ==> active@[(#[trigger] places@[i]) as int],
            forall|e: int|
                0 <= e < active@.len() && #[trigger] active@[e] ==> first_active[e]
                    || places@.contains(e as usize),
            forall|e: int| 0 <= e < first_active.len() && first_active[e] ==> #[trigger] active@[e],
        decreases places.len() - j,
    {
        let place = places[j];
        if !active[place] {
            let ghost before = done + queue@;
            let ghost marks = active@;
            assert(!before.contains(place));
            active.set(place, true);
            queue.push_back(place);
            proof {
                let listed = done + queue@;
                assert(listed =~= before.push(place));
                assert forall|e: int| 0 <= e < active@.len() implies (#[trigger] active@[e]
                    <==> listed.contains(e as usize)) by {
                    if e == place {
                        assert(listed[before.len() as int] == place);
                    } else {
                        assert(active@[e] == marks[e]);
                        if before.contains(e as usize) {
                            let p = choose|p: int| 0 <= p < before.len() && before[p] == e as usize;
                            assert(listed[p] == e as usize);
                        }
                    }
                }
                assert forall|e: int| 0 <= e < active@.len() && #[trigger] active@[e] implies first_active[e]
                    || places@.contains(e as usize) by {
                    if e != place {
                        assert(marks[e]);
                    }
                }
            }
        }
        j = j + 1;
    }
}

/// Marks the edges that leave an id which can be reached from `root`, by a
/// breadth-first search over the edges, with the index of their sources.
pub fn reached_edges(edges: &Vec<Edge>, sources: &TextIndex, root: &String) -> (active: Vec<bool>)
    requires
        sources.wf(),
        sources@ == sources_of(edge_models(edges@)),
    ensures
        marks_reached(edge_models(edges@), root@, active@),
{
    let ghost em = edge_models(edges@);
    let n = edges.len();
    let mut active = no_marks(n);
    let mut queue: VecDeque<usize> = VecDeque::new();
    let ghost mut done: Seq<usize> = Seq::empty();
    let first = sources.positions(root);
    proof {
        lemma_positions(sources@, root@);
        assert forall|j: int| 0 <= j < first.len() implies (#[trigger] first@[j]) < n by {
            assert(positions_of(sources@, root@)[j] < sources@.len());
        }
        assert(done + queue@ =~= Seq::<usize>::empty());
    }
    mark_all(&first, &mut active, &mut queue, Ghost(done));
    proof {
        assert forall|e: int| 0 <= e < n && #[trigger] active@[e] implies reachable(
            em,
            root@,
            em[e].source,
        ) by {
            assert(first@.contains(e as usize));
            let j = choose|j: int| 0 <= j < first.len() && first@[j] == e as usize;
            assert(sources@[positions_of(sources@, root@)[j] as int] == root@);
            lemma_reach_self(em, root@);
        }
        assert forall|e: int| 0 <= e < n && (#[trigger] em[e]).source == root@ implies active@[e] by {
            assert(sources@[e] == root@);
            assert(positions_of(sources@, root@).contains(e as usize));
            let j = choose|j: int| 0 <= j < first.len() && first@[j] == e as usize;
            assert(active@[first@[j] as int]);
        }
    }
    loop
        invariant
            n == edges.len(),
            em == edge_models(edges@),
            sources.wf(),
            sources@ == sources_of(em),
            active@.len() == n,
            lists_marks(active@, done + queue@),
            forall|e: int| 0 <= e < n && #[trigger] active@[e] ==> reachable(em, root@, em[e].source),
            forall|e: int| 0 <= e < n && (#[trigger] em[e]).source == root@ ==> active@[e],
            forall|p: int, e: int|
                0 <= p < done.len() && 0 <= e < n && em[#[trigger] done[p] as int].target == (
                #[trigger] em[e]).source ==> active@[e],
        ensures
            queue@.len() == 0,
        decreases n - done.len(),
    {
        let ghost waiting = queue@;
        proof {
            lemma_distinct_below(done + waiting, n as nat);
        }
        let from = match queue.pop_front() {
            Some(from) => from,
            None => {
                break ;
            },
        };
        let ghost earlier = done;
        proof {
            done = done.push(from);
            assert(done + queue@ =~= earlier + waiting);
            assert((earlier + waiting)[earlier.len() as int] == from);
            assert((earlier + waiting).contains(from));
        }
        assert(from < n);
        assert(active@[from as int]);
        let target = &edges[from].target;
        let next = sources.positions(target);
        proof {
            lemma_positions(sources@, target@);
            assert forall|j: int| 0 <= j < next.len() implies (#[trigger] next@[j]) < n by {
                assert(positions_of(sources@, target@)[j] < sources@.len());
            }
            lemma_reach_step(em, root@, from as int);
        }
        let ghost marks = active@;
        mark_all(&next, &mut active, &mut queue, Ghost(done));
        proof {
            assert forall|e: int| 0 <= e < n && #[trigger] active@[e] implies reachable(
                em,
                root@,
                em[e].source,
            ) by {
                if !marks[e] {
                    assert(next@.contains(e as usize));
                    let j = choose|j: int| 0 <= j < next.len() && next@[j] == e as usize;
                    assert(sources@[positions_of(sources@, target@)[j] as int] == target@);
                }
            }
            assert forall|p: int, e: int|
                0 <= p < done.len() && 0 <= e < n && em[#[trigger] done[p] as int].target == (
                #[trigger] em[e]).source implies active@[e] by {
                if p < earlier.len() {
                    assert(done[p] == earlier[p]);
                    assert(marks[e]);
                } else {
                    assert(done[p] == from);
                    assert(sources@[e] == target@);
                    assert(positions_of(sources@, target@).contains(e as usize));
                    let j = choose|j: int| 0 <= j < next.len() && next@[j] == e as usize;
                    assert(active@[next@[j] as int]);
                }
            }
        }
    }
    proof {
        assert(done + queue@ =~= done);
        assert forall|f: int, e: int|
            0 <= f < n && 0 <= e < n && #[trigger] active@[f] && em[f].target == (
            #[trigger] em[e]).source implies active@[e] by {
            assert(done.contains(f as usize));
            let p = choose|p: int| 0 <= p < done.len() && done[p] == f as usize;
            assert(em[done[p] as int].target == em[e].source);
        }
        assert(closed_marks(em, root@, active@));
        assert forall|e: int| 0 <= e < n && reachable(em, root@, em[e].source) implies active@[e] by {
            let route = choose|route: Seq<Seq<char>>| #[trigger]
                is_route(em, route) && route.first() == root@ && route.last() == em[e].source;
            lemma_closed_covers(em, root@, active@, route, e);
        }
    }
    active
}

/// Whether `id` can be reached from `root`, read off the marks on the edges
/// with the index of their targets.
pub fn is_reached(
    edges: &Vec<Edge>,
    targets: &TextIndex,
    active: &Vec<bool>,
    root: &String,
    id: &String,
) -> (b: bool)
    requires
        targets.wf(),
        targets@ == targets_of(edge_models(edges@)),
        marks_reached(edge_models(edges@), root@, active@),
    ensures
        b == reachable(edge_models(edges@), root@, id@),
{
    let ghost em = edge_models(edges@);
    if *id == *root {
        proof {
            lemma_reach_self(em, root@);
        }
        return true;
    }
    let places = targets.positions(id);
    proof {
        lemma_positions(targets@, id@);
    }
    let mut i: usize = 0;
    while i < places.len()
        invariant
            i <= places.len(),
            em == edge_models(edges@),
            targets@ == targets_of(em),
            marks_reached(em, root@, active@),
            places@ == positions_of(targets@, id@),
            forall|j: int|
                0 <= j < places.len() ==> (#[trigger] places@[j]) < em.len() && em[places@[j] as int].target
                    == id@,
            forall|j: int| 0 <= j < i ==> !active@[(#[trigger] places@[j]) as int],
        decreases places.len() - i,
    {
        let e = places[i];
        if active[e] {
            proof {
                lemma_reach_step(em, root@, e as int);
            }
            return true;
        }
        i = i + 1;
    }
    proof {
        if reachable(em, root@, id@) {
            lemma_reach_last(em, root@, id@);
            let e = choose|e: int|
                0 <= e < em.len() && reachable(em, root@, (#[trigger] em[e]).source)
                    && em[e].target == id@;
            assert(active@[e]);
            assert(targets@[e] == id@);
            assert(places@.contains(e as usize));
            let j = choose|j: int| 0 <= j < places.len() && places@[j] == e as usize;
            assert(!active@[places@[j] as int]);
        }
    }
    false
}

} // verus!
