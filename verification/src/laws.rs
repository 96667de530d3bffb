//! What holds of the graph store and of path queries in general.

use crate::cost::mask_bonus;
use crate::graph::{ingest, keyed_by_position, upsert};
use crate::neighbours::{found_at, lookup, neighbours, shifted};
use crate::node::{estimate, manhattan, step_cost, NodeView, DISTANCE_MULTIPLIER};
use crate::position::NodePosition;
use crate::route::{
    estimate_admissible, is_cheapest_path, is_route, is_step, is_walk, lemma_step, walk_cost,
};
use crate::search::{answers, path_outcome, AstarError};
use vstd::prelude::*;

verus! {

/// The node at index `i` is the first of `nodes` that stands at `p`.
pub open spec fn is_first_offer(nodes: Seq<NodeView>, p: NodePosition, i: int) -> bool {
    &&& 0 <= i < nodes.len()
    &&& nodes[i].position == p
    &&& forall|j: int| 0 <= j < i ==> (#[trigger] nodes[j]).position != p
}

/// A position holds no node until one is offered for it. From then on it
/// holds the first node that was offered for it, whatever is offered later.
pub proof fn law_first_upsert_stays(
    graph: Map<NodePosition, NodeView>,
    nodes: Seq<NodeView>,
    p: NodePosition,
)
    ensures
        graph.contains_key(p) ==> ingest(graph, nodes).contains_key(p) && ingest(graph, nodes)[p]
            == graph[p],
        !graph.contains_key(p) && (forall|i: int|
            0 <= i < nodes.len() ==> (#[trigger] nodes[i]).position != p) ==> !ingest(
            graph,
            nodes,
        ).contains_key(p),
        forall|i: int|
            !graph.contains_key(p) && is_first_offer(nodes, p, i) ==> ingest(
                graph,
                nodes,
            ).contains_key(p) && ingest(graph, nodes)[p] == nodes[i],
    decreases nodes.len(),
{
    if nodes.len() > 0 {
        let rest = nodes.drop_last();
        law_first_upsert_stays(graph, rest, p);
        assert forall|i: int| !graph.contains_key(p) && is_first_offer(nodes, p, i) implies ingest(
            graph,
            nodes,
        ).contains_key(p) && ingest(graph, nodes)[p] == nodes[i] by {
            if i < rest.len() {
                assert(is_first_offer(rest, p, i)) by {
                    assert(rest[i] == nodes[i]);
                    assert forall|j: int| 0 <= j < i implies (#[trigger] rest[j]).position != p by {
                        assert(rest[j] == nodes[j]);
                    }
                }
            } else {
                assert forall|j: int| 0 <= j < rest.len() implies (#[trigger] rest[j]).position
                    != p by {
                    assert(rest[j] == nodes[j]);
                }
            }
        }
        if !graph.contains_key(p) && (forall|i: int|
            0 <= i < nodes.len() ==> (#[trigger] nodes[i]).position != p) {
            assert forall|j: int| 0 <= j < rest.len() implies (#[trigger] rest[j]).position
                != p by {
                assert(rest[j] == nodes[j]);
            }
            assert(nodes[nodes.len() - 1].position != p);
        }
    }
}

/// Offering a node for a position that holds one changes nothing.
pub proof fn law_upsert_is_idempotent(
    graph: Map<NodePosition, NodeView>,
    node: NodeView,
    again: NodeView,
)
    requires
        again.position == node.position,
    ensures
        upsert(upsert(graph, node), again) == upsert(graph, node),
{
}

/// After a position is cleared it holds no node, and clearing a position that
/// holds none leaves the graph as it is.
pub proof fn law_remove_clears(graph: Map<NodePosition, NodeView>, p: NodePosition)
    ensures
        !graph.remove(p).contains_key(p),
        !graph.contains_key(p) ==> graph.remove(p) == graph,
        forall|q: NodePosition|
            q != p ==> (graph.remove(p).contains_key(q) <==> graph.contains_key(q)),
        forall|q: NodePosition|
            q != p && graph.contains_key(q) ==> graph.remove(p)[q] == graph[q],
{
    if !graph.contains_key(p) {
        assert(graph.remove(p) =~= graph);
    }
}

/// A list of node records that names each node of a graph, offered to an empty
/// graph, gives that graph again, and with it the same answer to every query.
pub proof fn law_ingest_round_trip(
    graph: Map<NodePosition, NodeView>,
    nodes: Seq<NodeView>,
    start: NodePosition,
    goal: NodePosition,
    pass_bit: usize,
    deny_bit: usize,
    costs: Map<usize, isize>,
)
    requires
        keyed_by_position(graph),
        forall|i: int|
            0 <= i < nodes.len() ==> graph.contains_key((#[trigger] nodes[i]).position)
                && graph[nodes[i].position] == nodes[i],
        forall|p: NodePosition|
            graph.contains_key(p) ==> exists|i: int|
                0 <= i < nodes.len() && (#[trigger] nodes[i]).position == p,
    ensures
        ingest(Map::empty(), nodes) == graph,
        path_outcome(ingest(Map::empty(), nodes), start, goal, pass_bit, deny_bit, costs)
            == path_outcome(graph, start, goal, pass_bit, deny_bit, costs),
{
    let empty = Map::<NodePosition, NodeView>::empty();
    let again = ingest(empty, nodes);
    assert forall|p: NodePosition|
        (#[trigger] again.dom().contains(p) <==> graph.dom().contains(p)) && (graph.dom().contains(
            p,
        ) ==> again[p] == graph[p]) by {
        law_first_upsert_stays(empty, nodes, p);
        if graph.contains_key(p) {
            let some = choose|i: int| 0 <= i < nodes.len() && (#[trigger] nodes[i]).position == p;
            let first = lemma_first_offer(nodes, p, some);
            assert(is_first_offer(nodes, p, first));
        } else {
            assert forall|i: int| 0 <= i < nodes.len() implies (#[trigger] nodes[i]).position
                != p by {}
        }
    }
    assert(again =~= graph);
}

/// Where some node of `nodes` stands at `p`, one of them is the first.
proof fn lemma_first_offer(nodes: Seq<NodeView>, p: NodePosition, some: int) -> (first: int)
    requires
        0 <= some < nodes.len(),
        nodes[some].position == p,
    ensures
        is_first_offer(nodes, p, first),
    decreases some,
{
    if exists|j: int| 0 <= j < some && (#[trigger] nodes[j]).position == p {
        let j = choose|j: int| 0 <= j < some && (#[trigger] nodes[j]).position == p;
        lemma_first_offer(nodes, p, j)
    } else {
        some
    }
}

/// A cost table can raise the price of a step above the base cost, never
/// lower it below.
pub proof fn law_step_cost_floor(mask: usize, costs: Map<usize, isize>)
    ensures
        step_cost(mask, costs) >= DISTANCE_MULTIPLIER,
        mask_bonus(mask, costs) <= 0 ==> step_cost(mask, costs) == DISTANCE_MULTIPLIER,
        mask_bonus(mask, costs) > 0 ==> step_cost(mask, costs) == DISTANCE_MULTIPLIER + mask_bonus(
            mask,
            costs,
        ),
{
}

/// No link of a node of the graph leads further than one unit away.
pub open spec fn links_span_one(graph: Map<NodePosition, NodeView>) -> bool {
    forall|p: NodePosition, k: int|
        graph.contains_key(p) && 0 <= k < graph[p].links.len() ==> manhattan(
            p,
            #[trigger] graph[p].links[k],
        ) <= 1
}

/// In a graph without long links a neighbour is at most one unit away.
proof fn lemma_neighbour_is_near(
    graph: Map<NodePosition, NodeView>,
    node: NodeView,
    other: NodeView,
)
    requires
        keyed_by_position(graph),
        links_span_one(graph),
        graph.contains_key(node.position),
        graph[node.position] == node,
        neighbours(graph, node).contains(other),
    ensures
        manhattan(node.position, other.position) <= 1,
{
    let up = found_at(graph, shifted(node.position, 0, -1));
    let right = found_at(graph, shifted(node.position, 1, 0));
    let down = found_at(graph, shifted(node.position, 0, 1));
    let left = found_at(graph, shifted(node.position, -1, 0));
    let linked = node.links.filter_map(lookup(graph));
    let i = choose|i: int|
        0 <= i < neighbours(graph, node).len() && neighbours(graph, node)[i] == other;
    if i >= (up + right + down + left).len() {
        let j = i - (up + right + down + left).len();
        assert(linked[j] == other);
        assert(linked.contains(other));
        node.links.lemma_filter_map_contains(lookup(graph), other);
        let link = choose|link: NodePosition| #[trigger]
            node.links.contains(link) && lookup(graph)(link) == Some(other);
        let k = choose|k: int| 0 <= k < node.links.len() && node.links[k] == link;
        assert(manhattan(node.position, graph[node.position].links[k]) <= 1);
    }
}

/// A walk costs at least the base cost for each of its steps.
proof fn lemma_walk_cost_floor(costs: Map<usize, isize>, nodes: Seq<NodeView>)
    requires
        nodes.len() > 0,
    ensures
        walk_cost(costs, nodes) >= DISTANCE_MULTIPLIER * (nodes.len() - 1),
    decreases nodes.len(),
{
    if nodes.len() > 1 {
        lemma_walk_cost_floor(costs, nodes.drop_last());
    }
}

/// In a graph without long links a walk of so many steps ends at most so many
/// units from where it began.
proof fn lemma_walk_reach(
    graph: Map<NodePosition, NodeView>,
    pass_bit: usize,
    deny_bit: usize,
    costs: Map<usize, isize>,
    nodes: Seq<NodeView>,
)
    requires
        keyed_by_position(graph),
        links_span_one(graph),
        nodes.len() > 0,
        graph.contains_key(nodes[0].position),
        graph[nodes[0].position] == nodes[0],
        is_walk(graph, pass_bit, deny_bit, costs, nodes),
    ensures
        manhattan(nodes[0].position, nodes.last().position) <= nodes.len() - 1,
        graph.contains_key(nodes.last().position),
        graph[nodes.last().position] == nodes.last(),
    decreases nodes.len(),
{
    if nodes.len() > 1 {
        let rest = nodes.drop_last();
        assert forall|i: int| 0 <= i < rest.len() - 1 implies is_step(
            graph,
            pass_bit,
            deny_bit,
            costs,
            #[trigger] rest[i],
            rest[i + 1],
        ) by {
            assert(is_step(graph, pass_bit, deny_bit, costs, nodes[i], nodes[i + 1]));
        }
        lemma_walk_reach(graph, pass_bit, deny_bit, costs, rest);
        let before = nodes[nodes.len() - 2];
        assert(is_step(graph, pass_bit, deny_bit, costs, before, nodes[nodes.len() - 2 + 1]));
        lemma_step(graph, pass_bit, deny_bit, costs, before, nodes.last());
        lemma_neighbour_is_near(graph, before, nodes.last());
    }
}

/// In a graph whose links lead no further than one unit away, the estimate is
/// never above the cost of a route.
pub proof fn law_estimate_admissible(
    graph: Map<NodePosition, NodeView>,
    pass_bit: usize,
    deny_bit: usize,
    costs: Map<usize, isize>,
    goal: NodePosition,
)
    requires
        keyed_by_position(graph),
        links_span_one(graph),
    ensures
        estimate_admissible(graph, pass_bit, deny_bit, costs, goal),
{
    assert forall|nodes: Seq<NodeView>|
        nodes.len() > 0 && graph.contains_key(nodes[0].position) && graph[nodes[0].position]
            == nodes[0] && #[trigger] is_route(
            graph,
            pass_bit,
            deny_bit,
            costs,
            nodes[0],
            goal,
            nodes,
        ) implies estimate(nodes[0].position, goal) <= walk_cost(costs, nodes) by {
        lemma_walk_reach(graph, pass_bit, deny_bit, costs, nodes);
        lemma_walk_cost_floor(costs, nodes);
        let far = manhattan(nodes[0].position, goal);
        let steps = nodes.len() - 1;
        assert(DISTANCE_MULTIPLIER * far <= DISTANCE_MULTIPLIER * steps) by (nonlinear_arith)
            requires
                far <= steps,
        ;
    }
}

/// In a graph whose links lead no further than one unit away, a path that a
/// query hands out is a cheapest one.
pub proof fn law_path_is_cheapest(
    graph: Map<NodePosition, NodeView>,
    start: NodePosition,
    goal: NodePosition,
    pass_bit: usize,
    deny_bit: usize,
    costs: Map<usize, isize>,
    outcome: Result<Seq<NodePosition>, AstarError>,
)
    requires
        keyed_by_position(graph),
        links_span_one(graph),
        answers(graph, start, goal, pass_bit, deny_bit, costs, outcome),
    ensures
        outcome matches Ok(path) ==> is_cheapest_path(
            graph,
            pass_bit,
            deny_bit,
            costs,
            start,
            goal,
            path.reverse(),
        ),
{
    law_estimate_admissible(graph, pass_bit, deny_bit, costs, goal);
}

} // verus!
