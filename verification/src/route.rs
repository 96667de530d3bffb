//! Routes through the graph: what a route is, and what it costs.

use crate::graph::keyed_by_position;
use crate::neighbours::{found_at, lookup, neighbours, passable, priced, shifted, successors};
use crate::node::{estimate, step_cost, NodeView};
use crate::position::NodePosition;
use vstd::prelude::*;

verus! {

/// `to` is among the steps that can be taken from `from`.
pub open spec fn is_step(
    graph: Map<NodePosition, NodeView>,
    pass_bit: usize,
    deny_bit: usize,
    costs: Map<usize, isize>,
    from: NodeView,
    to: NodeView,
) -> bool {
    exists|i: int|
        0 <= i < successors(graph, from, pass_bit, deny_bit, costs).len() && (#[trigger] successors(
            graph,
            from,
            pass_bit,
            deny_bit,
            costs,
        )[i]).0 == to
}

/// Each node of `nodes` but the first is a step from the node before it.
pub open spec fn is_walk(
    graph: Map<NodePosition, NodeView>,
    pass_bit: usize,
    deny_bit: usize,
    costs: Map<usize, isize>,
    nodes: Seq<NodeView>,
) -> bool {
    forall|i: int|
        0 <= i < nodes.len() - 1 ==> is_step(
            graph,
            pass_bit,
            deny_bit,
            costs,
            #[trigger] nodes[i],
            nodes[i + 1],
        )
}

/// `nodes` leads from `start` to a node at `goal`, step by step.
pub open spec fn is_route(
    graph: Map<NodePosition, NodeView>,
    pass_bit: usize,
    deny_bit: usize,
    costs: Map<usize, isize>,
    start: NodeView,
    goal: NodePosition,
    nodes: Seq<NodeView>,
) -> bool {
    &&& nodes.len() > 0
    &&& nodes[0] == start
    &&& nodes.last().position == goal
    &&& is_walk(graph, pass_bit, deny_bit, costs, nodes)
}

/// What it costs to walk along `nodes`: the price of the step onto each node
/// but the first.
pub open spec fn walk_cost(costs: Map<usize, isize>, nodes: Seq<NodeView>) -> int
    decreases nodes.len(),
{
    if nodes.len() <= 1 {
        0
    } else {
        walk_cost(costs, nodes.drop_last()) + step_cost(nodes.last().mask, costs)
    }
}

/// The estimate is never above the cost of a route: from whatever node of the
/// graph a route to `goal` sets out, it costs at least the estimate for that
/// node.
pub open spec fn estimate_admissible(
    graph: Map<NodePosition, NodeView>,
    pass_bit: usize,
    deny_bit: usize,
    costs: Map<usize, isize>,
    goal: NodePosition,
) -> bool {
    forall|nodes: Seq<NodeView>|
        nodes.len() > 0 && graph.contains_key(nodes[0].position) && graph[nodes[0].position]
            == nodes[0] && #[trigger] is_route(
            graph,
            pass_bit,
            deny_bit,
            costs,
            nodes[0],
            goal,
            nodes,
        ) ==> estimate(nodes[0].position, goal) <= walk_cost(costs, nodes)
}

/// No route from `start` to `goal` is cheaper than `nodes`.
pub open spec fn is_cheapest(
    graph: Map<NodePosition, NodeView>,
    pass_bit: usize,
    deny_bit: usize,
    costs: Map<usize, isize>,
    start: NodeView,
    goal: NodePosition,
    nodes: Seq<NodeView>,
) -> bool {
    forall|other: Seq<NodeView>| #[trigger]
        is_route(graph, pass_bit, deny_bit, costs, start, goal, other) ==> walk_cost(costs, nodes)
            <= walk_cost(costs, other)
}

/// The nodes of `graph` at `positions`.
pub open spec fn nodes_at(graph: Map<NodePosition, NodeView>, positions: Seq<NodePosition>) -> Seq<
    NodeView,
> {
    positions.map_values(|p: NodePosition| graph[p])
}

/// The positions of `nodes`.
pub open spec fn positions_of(nodes: Seq<NodeView>) -> Seq<NodePosition> {
    nodes.map_values(|node: NodeView| node.position)
}

/// `positions` are positions of nodes of the graph that lead from the node at
/// `start` to the node at `goal`, step by step.
pub open spec fn is_path(
    graph: Map<NodePosition, NodeView>,
    pass_bit: usize,
    deny_bit: usize,
    costs: Map<usize, isize>,
    start: NodePosition,
    goal: NodePosition,
    positions: Seq<NodePosition>,
) -> bool {
    &&& graph.contains_key(start)
    &&& forall|i: int| 0 <= i < positions.len() ==> graph.contains_key(#[trigger] positions[i])
    &&& is_route(graph, pass_bit, deny_bit, costs, graph[start], goal, nodes_at(graph, positions))
}

/// There is a path from `start` to `goal`.
pub open spec fn has_path(
    graph: Map<NodePosition, NodeView>,
    pass_bit: usize,
    deny_bit: usize,
    costs: Map<usize, isize>,
    start: NodePosition,
    goal: NodePosition,
) -> bool {
    exists|positions: Seq<NodePosition>| #[trigger]
        is_path(graph, pass_bit, deny_bit, costs, start, goal, positions)
}

/// What it costs to follow `positions` through the graph.
pub open spec fn path_cost(
    graph: Map<NodePosition, NodeView>,
    costs: Map<usize, isize>,
    positions: Seq<NodePosition>,
) -> int {
    walk_cost(costs, nodes_at(graph, positions))
}

/// No path from `start` to `goal` is cheaper than `positions`.
pub open spec fn is_cheapest_path(
    graph: Map<NodePosition, NodeView>,
    pass_bit: usize,
    deny_bit: usize,
    costs: Map<usize, isize>,
    start: NodePosition,
    goal: NodePosition,
    positions: Seq<NodePosition>,
) -> bool {
    forall|other: Seq<NodePosition>| #[trigger]
        is_path(graph, pass_bit, deny_bit, costs, start, goal, other) ==> path_cost(
            graph,
            costs,
            positions,
        ) <= path_cost(graph, costs, other)
}

/// Every neighbour of a node is a node of the graph.
pub proof fn lemma_neighbours_in_graph(
    graph: Map<NodePosition, NodeView>,
    node: NodeView,
    other: NodeView,
)
    requires
        keyed_by_position(graph),
        neighbours(graph, node).contains(other),
    ensures
        graph.contains_key(other.position),
        graph[other.position] == other,
{
    let up = found_at(graph, shifted(node.position, 0, -1));
    let right = found_at(graph, shifted(node.position, 1, 0));
    let down = found_at(graph, shifted(node.position, 0, 1));
    let left = found_at(graph, shifted(node.position, -1, 0));
    let linked = node.links.filter_map(lookup(graph));
    let i = choose|i: int|
        0 <= i < neighbours(graph, node).len() && neighbours(graph, node)[i] == other;
    if i >= (up + right + down + left).len() {
        let j = i - (up + right + down + left).len();
        assert(linked[j] == other);
        assert(linked.contains(other));
        node.links.lemma_filter_map_contains(lookup(graph), other);
    }
}

/// A step leads to a node of the graph that may be stepped on, and costs what
/// stepping on that node costs.
pub proof fn lemma_step(
    graph: Map<NodePosition, NodeView>,
    pass_bit: usize,
    deny_bit: usize,
    costs: Map<usize, isize>,
    from: NodeView,
    to: NodeView,
)
    requires
        keyed_by_position(graph),
        is_step(graph, pass_bit, deny_bit, costs, from, to),
    ensures
        neighbours(graph, from).contains(to),
        passable(to.mask, pass_bit, deny_bit),
        graph.contains_key(to.position),
        graph[to.position] == to,
{
    let steps = successors(graph, from, pass_bit, deny_bit, costs);
    let i = choose|i: int| 0 <= i < steps.len() && (#[trigger] steps[i]).0 == to;
    assert(steps.contains(steps[i]));
    neighbours(graph, from).lemma_filter_map_contains(
        priced(pass_bit, deny_bit, costs),
        steps[i],
    );
    lemma_neighbours_in_graph(graph, from, to);
}

/// A route that sets out from a node of the graph stays in the graph: its
/// positions are a path.
pub proof fn lemma_route_is_path(
    graph: Map<NodePosition, NodeView>,
    pass_bit: usize,
    deny_bit: usize,
    costs: Map<usize, isize>,
    start: NodePosition,
    goal: NodePosition,
    nodes: Seq<NodeView>,
)
    requires
        keyed_by_position(graph),
        graph.contains_key(start),
        is_route(graph, pass_bit, deny_bit, costs, graph[start], goal, nodes),
    ensures
        nodes_at(graph, positions_of(nodes)) == nodes,
        is_path(graph, pass_bit, deny_bit, costs, start, goal, positions_of(nodes)),
{
    assert forall|i: int| 0 <= i < nodes.len() implies graph.contains_key(
        (#[trigger] nodes[i]).position,
    ) && graph[nodes[i].position] == nodes[i] by {
        if i > 0 {
            assert(is_step(graph, pass_bit, deny_bit, costs, nodes[i - 1], nodes[i - 1 + 1]));
            lemma_step(graph, pass_bit, deny_bit, costs, nodes[i - 1], nodes[i]);
        }
    }
    assert(nodes_at(graph, positions_of(nodes)) =~= nodes);
}

} // verus!
