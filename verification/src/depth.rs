//! The depth of the nodes of a dependency graph: 0 for a node without
//! dependencies, else one more than the greatest depth among its
//! dependencies.

use crate::tree::SourceId;
use vstd::prelude::*;

verus! {

/// The depth that `depths` records for a handle, and 0 for a handle that it
/// does not cover.
pub open spec fn depth_or_zero(depths: Seq<nat>, id: SourceId) -> nat {
    if id.id < depths.len() {
        depths[id.id as int]
    } else {
        0
    }
}

/// The greatest depth that `depths` records for any of `deps`, and 0 if
/// there is none.
pub open spec fn highest(deps: Seq<SourceId>, depths: Seq<nat>) -> nat
    decreases deps.len(),
{
    if deps.len() == 0 {
        0
    } else {
        let rest = highest(deps.drop_last(), depths);
        let last = depth_or_zero(depths, deps.last());
        if last > rest {
            last
        } else {
            rest
        }
    }
}

/// The depth of a node with the dependencies `deps`, given the depths of
/// those: 0 without dependencies, else one more than the greatest of them.
pub open spec fn relaxed(deps: Seq<SourceId>, depths: Seq<nat>) -> nat {
    if deps.len() == 0 {
        0
    } else {
        1 + highest(deps, depths)
    }
}

/// The depths after `rounds` rounds of relaxation: every depth starts at 0,
/// and each round recomputes every node's depth from the depths of its
/// dependencies in the round before.
pub open spec fn depths_at(edges: Seq<Seq<SourceId>>, rounds: nat) -> Seq<nat>
    decreases rounds,
{
    if rounds == 0 {
        Seq::new(edges.len(), |i: int| 0nat)
    } else {
        let before = depths_at(edges, (rounds - 1) as nat);
        Seq::new(edges.len(), |i: int| relaxed(edges[i], before))
    }
}

/// The depths of the nodes of a graph: those after as many rounds of
/// relaxation as the graph has nodes. No chain of dependencies in an acyclic
/// graph is longer, so there the depths have settled.
pub open spec fn graph_depths(edges: Seq<Seq<SourceId>>) -> Seq<nat> {
    depths_at(edges, edges.len())
}

/// A list of machine integers as natural numbers.
pub open spec fn as_nats(numbers: Seq<usize>) -> Seq<nat> {
    numbers.map_values(|number: usize| number as nat)
}

/// The lists of handles of a list of vectors.
pub open spec fn edge_lists(edges: Seq<Vec<SourceId>>) -> Seq<Seq<SourceId>> {
    edges.map_values(|deps: Vec<SourceId>| deps@)
}

/// No depth after `rounds` rounds exceeds `rounds`.
pub proof fn lemma_depths_bounded(edges: Seq<Seq<SourceId>>, rounds: nat)
    ensures
        depths_at(edges, rounds).len() == edges.len(),
        forall|i: int| 0 <= i < edges.len() ==> #[trigger] depths_at(edges, rounds)[i] <= rounds,
    decreases rounds,
{
    if rounds > 0 {
        let before = depths_at(edges, (rounds - 1) as nat);
        lemma_depths_bounded(edges, (rounds - 1) as nat);
        assert forall|i: int| 0 <= i < edges.len() implies #[trigger] depths_at(edges, rounds)[i]
            <= rounds by {
            lemma_highest_bounded(edges[i], before, (rounds - 1) as nat);
        }
    }
}

proof fn lemma_highest_bounded(deps: Seq<SourceId>, depths: Seq<nat>, bound: nat)
    requires
        forall|i: int| 0 <= i < depths.len() ==> #[trigger] depths[i] <= bound,
    ensures
        highest(deps, depths) <= bound,
    decreases deps.len(),
{
    if deps.len() > 0 {
        lemma_highest_bounded(deps.drop_last(), depths, bound);
    }
}

/// Once a round changes nothing, no later round does.
proof fn lemma_depths_settled(edges: Seq<Seq<SourceId>>, settled: nat, later: nat)
    requires
        depths_at(edges, settled + 1) == depths_at(edges, settled),
        settled <= later,
    ensures
        depths_at(edges, later) == depths_at(edges, settled),
    decreases later,
{
    if later > settled {
        lemma_depths_settled(edges, settled, (later - 1) as nat);
    }
}

/// Whether `rank` gives every node a rank above those of its dependencies,
/// all of which are nodes of the graph.
pub open spec fn ranks(edges: Seq<Seq<SourceId>>, rank: Seq<nat>) -> bool {
    &&& rank.len() == edges.len()
    &&& forall|i: int, j: int|
        0 <= i < edges.len() && 0 <= j < edges[i].len() ==> (#[trigger] edges[i][j]).id
            < edges.len() && rank[edges[i][j].id as int] < rank[i]
}

/// Whether the graph has no cycle: its nodes can be ranked so that every
/// edge leads to a node of lower rank.
pub open spec fn acyclic(edges: Seq<Seq<SourceId>>) -> bool {
    exists|rank: Seq<nat>| ranks(edges, rank)
}

/// The greatest depth is at least the depth of each dependency, and is the
/// depth of one of them.
pub proof fn lemma_highest_is_greatest(deps: Seq<SourceId>, depths: Seq<nat>)
    ensures
        forall|j: int| 0 <= j < deps.len() ==> depth_or_zero(depths, #[trigger] deps[j]) <= highest(
            deps,
            depths,
        ),
        deps.len() > 0 ==> exists|j: int|
            0 <= j < deps.len() && depth_or_zero(depths, #[trigger] deps[j]) == highest(
                deps,
                depths,
            ),
    decreases deps.len(),
{
    if deps.len() > 0 {
        let front = deps.drop_last();
        lemma_highest_is_greatest(front, depths);
        assert forall|j: int| 0 <= j < deps.len() implies depth_or_zero(
            depths,
            #[trigger] deps[j],
        ) <= highest(deps, depths) by {
            if j < front.len() {
                assert(front[j] == deps[j]);
            }
        }
        if front.len() > 0 && highest(front, depths) >= depth_or_zero(depths, deps.last()) {
            let j = choose|j: int|
                0 <= j < front.len() && depth_or_zero(depths, #[trigger] front[j]) == highest(
                    front,
                    depths,
                );
            assert(deps[j] == front[j]);
        } else {
            assert(deps[deps.len() - 1] == deps.last());
        }
    }
}

/// The greatest depth among `deps` is the same under two records that agree
/// on the depth of each of them.
proof fn lemma_highest_agrees(deps: Seq<SourceId>, first: Seq<nat>, second: Seq<nat>)
    requires
        forall|j: int|
            0 <= j < deps.len() ==> depth_or_zero(first, #[trigger] deps[j]) == depth_or_zero(
                second,
                deps[j],
            ),
    ensures
        highest(deps, first) == highest(deps, second),
    decreases deps.len(),
{
    if deps.len() > 0 {
        let front = deps.drop_last();
        lemma_highest_agrees(front, first, second);
    }
}

/// From one round to the next a depth stays as it is, or becomes the number
/// of the round.
proof fn lemma_round_keeps_or_saturates(edges: Seq<Seq<SourceId>>, rounds: nat, node: int)
    requires
        0 <= node < edges.len(),
    ensures
        depths_at(edges, rounds + 1)[node] == depths_at(edges, rounds)[node] || depths_at(
            edges,
            rounds + 1,
        )[node] == rounds + 1,
    decreases rounds,
{
    let deps = edges[node];
    let now = depths_at(edges, rounds);
    lemma_depths_bounded(edges, rounds);
    if deps.len() > 0 {
        lemma_highest_bounded(deps, now, rounds);
        lemma_highest_is_greatest(deps, now);
        if rounds == 0 {
            assert forall|j: int| 0 <= j < deps.len() implies depth_or_zero(now, #[trigger] deps[j])
                == 0 by {}
        } else if highest(deps, now) < rounds {
            let before = depths_at(edges, (rounds - 1) as nat);
            lemma_depths_bounded(edges, (rounds - 1) as nat);
            assert forall|j: int| 0 <= j < deps.len() implies depth_or_zero(
                before,
                #[trigger] deps[j],
            ) == depth_or_zero(now, deps[j]) by {
                if deps[j].id < edges.len() {
                    lemma_round_keeps_or_saturates(edges, (rounds - 1) as nat, deps[j].id as int);
                }
            }
            lemma_highest_agrees(deps, before, now);
        }
    }
}

/// In a ranked graph, a node whose depth after `rounds` rounds is `rounds`
/// heads a chain of `rounds + 1` nodes: the set returned holds that many
/// nodes, none of a rank above the node's own.
proof fn lemma_saturated_chain(
    edges: Seq<Seq<SourceId>>,
    rank: Seq<nat>,
    rounds: nat,
    node: int,
) -> (chain: Set<int>)
    requires
        ranks(edges, rank),
        0 <= node < edges.len(),
        depths_at(edges, rounds)[node] == rounds,
    ensures
        chain.finite(),
        chain.len() >= rounds + 1,
        forall|other: int| #[trigger]
            chain.contains(other) ==> 0 <= other < edges.len() && rank[other] <= rank[node],
    decreases rounds,
{
    if rounds == 0 {
        set![node]
    } else {
        let deps = edges[node];
        let before = depths_at(edges, (rounds - 1) as nat);
        lemma_depths_bounded(edges, (rounds - 1) as nat);
        lemma_highest_is_greatest(deps, before);
        let j = choose|j: int|
            0 <= j < deps.len() && depth_or_zero(before, #[trigger] deps[j]) == highest(
                deps,
                before,
            );
        let below = lemma_saturated_chain(edges, rank, (rounds - 1) as nat, deps[j].id as int);
        below.insert(node)
    }
}

/// In a graph without a cycle the depths have settled after as many rounds
/// as the graph has nodes: one more round changes nothing.
proof fn lemma_acyclic_depths_settled(edges: Seq<Seq<SourceId>>)
    requires
        acyclic(edges),
    ensures
        depths_at(edges, edges.len() + 1) == graph_depths(edges),
{
    let rank = choose|rank: Seq<nat>| ranks(edges, rank);
    let count = edges.len();
    lemma_depths_bounded(edges, count);
    lemma_depths_bounded(edges, count + 1);
    assert forall|node: int| 0 <= node < count implies depths_at(edges, count + 1)[node]
        == depths_at(edges, count)[node] by {
        lemma_round_keeps_or_saturates(edges, count, node);
        if depths_at(edges, count + 1)[node] == count + 1 {
            let chain = lemma_saturated_chain(edges, rank, count + 1, node);
            vstd::set_lib::lemma_int_range(0, count as int);
            vstd::set_lib::lemma_len_subset(chain, vstd::set_lib::set_int_range(0, count as int));
        }
    }
}

/// The depths of a graph without a cycle are what depth means: a node
/// without dependencies has depth 0, and any other node has one more than
/// the greatest depth among its dependencies.
pub proof fn lemma_depths_of_acyclic_graph(edges: Seq<Seq<SourceId>>)
    requires
        acyclic(edges),
    ensures
        graph_depths(edges).len() == edges.len(),
        forall|node: int|
            0 <= node < edges.len() ==> #[trigger] graph_depths(edges)[node] == relaxed(
                edges[node],
                graph_depths(edges),
            ),
{
    lemma_acyclic_depths_settled(edges);
    lemma_depths_bounded(edges, edges.len());
}

proof fn lemma_depth_unique_at(
    edges: Seq<Seq<SourceId>>,
    rank: Seq<nat>,
    depths: Seq<nat>,
    node: int,
)
    requires
        ranks(edges, rank),
        depths.len() == edges.len(),
        forall|other: int|
            0 <= other < edges.len() ==> #[trigger] depths[other] == relaxed(edges[other], depths),
        0 <= node < edges.len(),
    ensures
        depths[node] == graph_depths(edges)[node],
    decreases rank[node],
{
    let deps = edges[node];
    let settled = graph_depths(edges);
    lemma_depths_of_acyclic_graph(edges);
    assert forall|j: int| 0 <= j < deps.len() implies depth_or_zero(depths, #[trigger] deps[j])
        == depth_or_zero(settled, deps[j]) by {
        lemma_depth_unique_at(edges, rank, depths, deps[j].id as int);
    }
    lemma_highest_agrees(deps, depths, settled);
}

/// The depths of a graph without a cycle are the only depths that are what
/// depth means: whatever gives every node without dependencies 0, and every
/// other node one more than the greatest among its dependencies, gives
/// these depths. So it does not matter how depths are computed.
pub proof fn lemma_depths_are_unique(edges: Seq<Seq<SourceId>>, depths: Seq<nat>)
    requires
        acyclic(edges),
        depths.len() == edges.len(),
        forall|node: int|
            0 <= node < edges.len() ==> #[trigger] depths[node] == relaxed(edges[node], depths),
    ensures
        depths == graph_depths(edges),
{
    let rank = choose|rank: Seq<nat>| ranks(edges, rank);
    lemma_depths_bounded(edges, edges.len());
    assert forall|node: int| 0 <= node < edges.len() implies depths[node] == graph_depths(
        edges,
    )[node] by {
        lemma_depth_unique_at(edges, rank, depths, node);
    }
}

/// A node without dependencies has depth 0, in any graph.
pub proof fn lemma_depth_without_dependencies(edges: Seq<Seq<SourceId>>, node: int)
    requires
        0 <= node < edges.len(),
        edges[node].len() == 0,
    ensures
        graph_depths(edges)[node] == 0,
{
}

/// The greatest of the depths of `deps`.
fn highest_of(deps: &Vec<SourceId>, depths: &Vec<usize>) -> (best: usize)
    ensures
        best == highest(deps@, as_nats(depths@)),
{
    let mut best: usize = 0;
    let mut j: usize = 0;
    while j < deps.len()
        invariant
            j <= deps.len(),
            best == highest(deps@.take(j as int), as_nats(depths@)),
        decreases deps.len() - j,
    {
        let dep = deps[j];
        let depth = if dep.id < depths.len() {
            depths[dep.id]
        } else {
            0
        };
        proof {
            assert(deps@.take(j + 1).drop_last() =~= deps@.take(j as int));
        }
        if depth > best {
            best = depth;
        }
        j += 1;
    }
    assert(deps@.take(deps.len() as int) =~= deps@);
    best
}

/// One round of relaxation: the depth of every node from the depths of its
/// dependencies in `before`, and whether any depth differs from `before`.
fn relax_all(edges: &Vec<Vec<SourceId>>, before: &Vec<usize>) -> (round: (Vec<usize>, bool))
    requires
        before.len() == edges.len(),
        forall|i: int| 0 <= i < before.len() ==> before@[i] < edges.len(),
    ensures
        round.0.len() == edges.len(),
        forall|i: int|
            0 <= i < edges.len() ==> #[trigger] round.0@[i] == relaxed(
                edge_lists(edges@)[i],
                as_nats(before@),
            ),
        round.1 == (round.0@ != before@),
{
    let mut next: Vec<usize> = Vec::new();
    let mut changed = false;
    let mut i: usize = 0;
    assert(next@ =~= before@.take(0));
    while i < edges.len()
        invariant
            i <= edges.len(),
            next.len() == i,
            before.len() == edges.len(),
            forall|k: int| 0 <= k < before.len() ==> before@[k] < edges.len(),
            forall|k: int|
                0 <= k < i ==> #[trigger] next@[k] == relaxed(
                    edge_lists(edges@)[k],
                    as_nats(before@),
                ),
            changed == (next@ != before@.take(i as int)),
        decreases edges.len() - i,
    {
        let deps = &edges[i];
        let depth = if deps.len() == 0 {
            0
        } else {
            proof {
                lemma_highest_bounded(
                    deps@,
                    as_nats(before@),
                    (edges.len() - 1) as nat,
                );
            }
            1 + highest_of(deps, before)
        };
        let ghost earlier = next@;
        if depth != before[i] {
            changed = true;
        }
        next.push(depth);
        proof {
            let now = before@.take(i + 1);
            if earlier != before@.take(i as int) {
                assert(next@.take(i as int) =~= earlier);
                assert(now.take(i as int) =~= before@.take(i as int));
            } else if depth == before@[i as int] {
                assert(next@ =~= now);
            } else {
                assert(next@[i as int] != now[i as int]);
            }
        }
        i += 1;
    }
    assert(before@.take(before.len() as int) =~= before@);
    (next, changed)
}

/// Computes the depths of the nodes of a graph by rounds of relaxation,
/// which end as soon as a round changes nothing.
pub fn settled_depths(edges: &Vec<Vec<SourceId>>) -> (depths: Vec<usize>)
    ensures
        as_nats(depths@) == graph_depths(edge_lists(edges@)),
{
    let count = edges.len();
    let ghost lists = edge_lists(edges@);
    let mut depths: Vec<usize> = Vec::new();
    while depths.len() < count
        invariant
            depths.len() <= count,
            forall|i: int| 0 <= i < depths.len() ==> depths@[i] == 0,
        decreases count - depths.len(),
    {
        depths.push(0);
    }
    let mut rounds: usize = 0;
    let mut settled = false;
    while rounds < count && !settled
        invariant
            lists == edge_lists(edges@),
            count == edges.len(),
            rounds <= count,
            as_nats(depths@) == depths_at(lists, rounds as nat),
            settled ==> depths_at(lists, rounds as nat + 1) == depths_at(lists, rounds as nat),
        decreases
                count - rounds + if settled {
                    0int
                } else {
                    1int
                },
    {
        proof {
            lemma_depths_bounded(lists, rounds as nat);
            assert forall|i: int| 0 <= i < depths.len() implies depths@[i] < count by {
                assert(depths_at(lists, rounds as nat)[i] <= rounds);
            }
        }
        let (next, changed) = relax_all(edges, &depths);
        if changed {
            depths = next;
            rounds += 1;
        } else {
            settled = true;
        }
    }
    proof {
        if settled {
            lemma_depths_settled(lists, rounds as nat, count as nat);
        }
    }
    depths
}

} // verus!
