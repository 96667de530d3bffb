//! Shortest routes between two positions, found by A* search.

use crate::graph::{keyed_by_position, Graph};
use crate::node::{views, Node, NodeView, DISTANCE_MULTIPLIER};
use crate::position::NodePosition;
use crate::route::{
    estimate_admissible, has_path, is_cheapest, is_cheapest_path, is_path, is_route,
    lemma_route_is_path, nodes_at, path_cost, positions_of,
};
use std::collections::HashMap;
use vstd::prelude::*;

verus! {

/// Why a query for a path gave none.
#[derive(Debug, PartialEq, Eq, Structural, Clone, Copy)]
pub enum AstarError {
    StartNodeNotFound,
    GoalNodeNotFound,
    NoPath,
}

impl AstarError {
    /// A short label for the failure.
    pub fn message(&self) -> (text: String)
        ensures
            text@ == match self {
                AstarError::StartNodeNotFound => "Starting node not found"@,
                AstarError::GoalNodeNotFound => "Goal node not found"@,
                AstarError::NoPath => "No path found"@,
            },
    {
        match self {
            AstarError::StartNodeNotFound => "Starting node not found".to_string(),
            AstarError::GoalNodeNotFound => "Goal node not found".to_string(),
            AstarError::NoPath => "No path found".to_string(),
        }
    }
}

/// The route that the A* search returns for a start node, the node at the
/// goal, a filter and a cost table, or `None` where it finds no route. The
/// search keeps its frontier in a binary heap and the nodes it has seen in a
/// map that is ordered by insertion, so equal arguments give equal routes.
pub uninterp spec fn astar_route(
    graph: Map<NodePosition, NodeView>,
    start: NodeView,
    goal: NodeView,
    pass_bit: usize,
    deny_bit: usize,
    costs: Map<usize, isize>,
) -> Option<Seq<NodeView>>;

/// The cost of every route through a graph of `nodes` nodes, priced by a
/// table of `weights` entries, fits the type that costs are computed in,
/// with room for the largest estimate.
pub open spec fn cost_range_suffices(nodes: nat, weights: nat) -> bool {
    nodes * (DISTANCE_MULTIPLIER + weights * isize::MAX) + 3 * DISTANCE_MULTIPLIER * usize::MAX
        <= u128::MAX
}

/// The nodes of a route that was found, as mathematical values.
pub open spec fn found_views(found: Option<Vec<Node>>) -> Option<Seq<NodeView>> {
    match found {
        Some(nodes) => Some(views(nodes@)),
        None => None,
    }
}

impl Node {
    /// Whether this node stands at `position`.
    pub fn stands_at(&self, position: NodePosition) -> (at: bool)
        ensures
            at == (self.position == position),
    {
        self.position == position
    }
}

/// Runs `pathfinding::directed::astar::astar` from `start`, with
/// `Node::successors` as the successor function, `Node::distance` to `goal` as
/// the heuristic and `Node::stands_at` the goal's position as the test for
/// success, and hands back the nodes of the route without its cost. What it
/// hands back is what `astar_route` names.
///
/// The rest of the contract is what that function documents. A route that it returns
/// starts with the start node, ends with a node that passes the test, and goes
/// on at each node with one of the successors of the node before; no node is
/// in it twice. Where the heuristic is never above the true cost, no route is
/// cheaper. It returns nothing only where there is no route. That the search
/// neither overflows nor runs forever rests on the `requires`: the graph is
/// finite, every step costs at least the base cost, and no sum of a route's
/// cost and an estimate leaves the range of `u128`.
#[verifier::external_body]
fn astar_search(
    graph: &Graph,
    start: &Node,
    goal: &Node,
    pass_bit: usize,
    deny_bit: usize,
    costs: &HashMap<usize, isize>,
) -> (found: Option<Vec<Node>>)
    requires
        graph@.contains_key(start.position),
        graph@[start.position] == start@,
        cost_range_suffices(graph@.len(), costs@.len()),
    ensures
        found_views(found) == astar_route(graph@, start@, goal@, pass_bit, deny_bit, costs@),
        match found {
            Some(nodes) => {
                &&& is_route(
                    graph@,
                    pass_bit,
                    deny_bit,
                    costs@,
                    start@,
                    goal.position,
                    views(nodes@),
                )
                &&& views(nodes@).no_duplicates()
                &&& estimate_admissible(graph@, pass_bit, deny_bit, costs@, goal.position)
                    ==> is_cheapest(
                    graph@,
                    pass_bit,
                    deny_bit,
                    costs@,
                    start@,
                    goal.position,
                    views(nodes@),
                )
            },
            None => forall|nodes: Seq<NodeView>|
                !#[trigger] is_route(
                    graph@,
                    pass_bit,
                    deny_bit,
                    costs@,
                    start@,
                    goal.position,
                    nodes,
                ),
        },
{
    pathfinding::directed::astar::astar(
        start,
        |node| node.successors(graph, pass_bit, deny_bit, costs),
        |node| node.distance(goal),
        |node| node.stands_at(goal.position),
    ).map(|(nodes, _)| nodes)
}

/// What a query answers once the search has come back: the positions of the
/// route from the goal back to the start, or that there is no path.
pub open spec fn path_of(found: Option<Seq<NodeView>>) -> Result<Seq<NodePosition>, AstarError> {
    match found {
        Some(nodes) => Ok(positions_of(nodes).reverse()),
        None => Err(AstarError::NoPath),
    }
}

/// What a query for a path from `start` to `goal` answers.
pub open spec fn path_outcome(
    graph: Map<NodePosition, NodeView>,
    start: NodePosition,
    goal: NodePosition,
    pass_bit: usize,
    deny_bit: usize,
    costs: Map<usize, isize>,
) -> Result<Seq<NodePosition>, AstarError> {
    if !graph.contains_key(start) {
        Err(AstarError::StartNodeNotFound)
    } else if !graph.contains_key(goal) {
        Err(AstarError::GoalNodeNotFound)
    } else if start.z != goal.z {
        Err(AstarError::NoPath)
    } else {
        path_of(astar_route(graph, graph[start], graph[goal], pass_bit, deny_bit, costs))
    }
}

/// The answer to a query as a mathematical value.
pub open spec fn path_view(path: Result<Vec<NodePosition>, AstarError>) -> Result<
    Seq<NodePosition>,
    AstarError,
> {
    match path {
        Ok(positions) => Ok(positions@),
        Err(e) => Err(e),
    }
}

/// What holds of the answer `outcome` to a query for a path from `start` to
/// `goal`: when each failure is reported, and what a path that is handed out
/// is.
pub open spec fn answers(
    graph: Map<NodePosition, NodeView>,
    start: NodePosition,
    goal: NodePosition,
    pass_bit: usize,
    deny_bit: usize,
    costs: Map<usize, isize>,
    outcome: Result<Seq<NodePosition>, AstarError>,
) -> bool {
    &&& outcome == path_outcome(graph, start, goal, pass_bit, deny_bit, costs)
    &&& outcome == Err::<Seq<NodePosition>, AstarError>(AstarError::StartNodeNotFound)
        <==> !graph.contains_key(start)
    &&& outcome == Err::<Seq<NodePosition>, AstarError>(AstarError::GoalNodeNotFound)
        <==> graph.contains_key(start) && !graph.contains_key(goal)
    &&& outcome == Err::<Seq<NodePosition>, AstarError>(AstarError::NoPath) <==> {
        &&& graph.contains_key(start)
        &&& graph.contains_key(goal)
        &&& start.z != goal.z || !has_path(graph, pass_bit, deny_bit, costs, start, goal)
    }
    &&& outcome matches Ok(path) ==> {
        &&& path.len() > 0
        &&& path.first() == goal
        &&& path.last() == start
        &&& is_path(graph, pass_bit, deny_bit, costs, start, goal, path.reverse())
        &&& path.no_duplicates()
        &&& estimate_admissible(graph, pass_bit, deny_bit, costs, goal) ==> is_cheapest_path(
            graph,
            pass_bit,
            deny_bit,
            costs,
            start,
            goal,
            path.reverse(),
        )
    }
}

/// Turns what the search found into the answer to the query: the positions of
/// the route in reverse, so that the goal comes first and the start last.
pub fn path_from(found: Option<Vec<Node>>) -> (path: Result<Vec<NodePosition>, AstarError>)
    ensures
        path_view(path) == path_of(found_views(found)),
{
    match found {
        None => Err(AstarError::NoPath),
        Some(nodes) => {
            let ghost forward = positions_of(views(nodes@));
            let mut path: Vec<NodePosition> = Vec::new();
            let mut i: usize = nodes.len();
            while i > 0
                invariant
                    i <= nodes.len(),
                    forward == positions_of(views(nodes@)),
                    path@ == forward.reverse().take(nodes.len() - i),
                decreases i,
            {
                i = i - 1;
                path.push(nodes[i].position);
                assert(path@ =~= forward.reverse().take(nodes.len() - i));
            }
            assert(path@ =~= forward.reverse());
            Ok(path)
        },
    }
}

impl Graph {
    /// Whether the costs of routes through this graph, priced by `costs`, fit
    /// the type that they are computed in.
    pub fn cost_range_suffices(&self, costs: &HashMap<usize, isize>) -> (fits: bool)
        ensures
            fits == cost_range_suffices(self@.len(), costs@.len()),
    {
        let nodes: u128 = self.len() as u128;
        let weights: u128 = costs.len() as u128;
        let most: u128 = isize::MAX as u128;
        let widest: u128 = usize::MAX as u128;
        assert(weights * most <= 0xffff_ffff_ffff_ffff * 0x7fff_ffff_ffff_ffff) by (nonlinear_arith)
            requires
                0 <= weights <= 0xffff_ffff_ffff_ffff,
                0 <= most <= 0x7fff_ffff_ffff_ffff,
        ;
        let step: u128 = DISTANCE_MULTIPLIER + weights * most;
        let unit: u128 = 3 * DISTANCE_MULTIPLIER;
        assert(unit * widest <= 300 * 0xffff_ffff_ffff_ffff) by (nonlinear_arith)
            requires
                unit == 300,
                0 <= widest <= 0xffff_ffff_ffff_ffff,
        ;
        let estimate: u128 = unit * widest;
        match nodes.checked_mul(step) {
            Some(route) => route.checked_add(estimate).is_some(),
            None => false,
        }
    }

    /// Searches a path from the node at `start_node_pos` to the node at
    /// `goal_node_pos` over nodes that have a capability of `pass_bit` and
    /// none of `deny_bit`, each step priced by `costs`. The path lists
    /// positions from the goal back to the start. It is a cheapest one
    /// wherever the distance estimate is never above the cost of a route,
    /// as it is in every graph whose links lead at most one unit away.
    ///
    /// Route costs are summed in `u128`; the graph and the cost table must
    /// be small enough for that, which `cost_range_suffices` tests.
    pub fn generate_path(
        &self,
        start_node_pos: NodePosition,
        goal_node_pos: NodePosition,
        pass_bit: usize,
        deny_bit: usize,
        costs: &HashMap<usize, isize>,
    ) -> (path: Result<Vec<NodePosition>, AstarError>)
        requires
            cost_range_suffices(self@.len(), costs@.len()),
        ensures
            answers(
                self@,
                start_node_pos,
                goal_node_pos,
                pass_bit,
                deny_bit,
                costs@,
                path_view(path),
            ),
    {
        proof {
            self.lemma_view();
        }
        let start_node = match self.get_node(start_node_pos) {
            Some(node) => node,
            None => {
                return Err(AstarError::StartNodeNotFound);
            },
        };
        let goal_node = match self.get_node(goal_node_pos) {
            Some(node) => node,
            None => {
                return Err(AstarError::GoalNodeNotFound);
            },
        };
        if goal_node.position.z != start_node.position.z {
            return Err(AstarError::NoPath);
        }
        let found = astar_search(self, &start_node, &goal_node, pass_bit, deny_bit, costs);
        proof {
            lemma_answer(
                self@,
                start_node_pos,
                goal_node_pos,
                pass_bit,
                deny_bit,
                costs@,
                found_views(found),
            );
        }
        path_from(found)
    }

    /// Computes a path as `generate_path` does, where the costs of routes fit
    /// the type that they are computed in, and nothing where they do not.
    pub fn find_path(
        &self,
        start: NodePosition,
        goal: NodePosition,
        pass_bit: usize,
        deny_bit: usize,
        costs: &HashMap<usize, isize>,
    ) -> (path: Option<Result<Vec<NodePosition>, AstarError>>)
        ensures
            path is Some <==> cost_range_suffices(self@.len(), costs@.len()),
            path matches Some(p) ==> answers(
                self@,
                start,
                goal,
                pass_bit,
                deny_bit,
                costs@,
                path_view(p),
            ),
    {
        if self.cost_range_suffices(costs) {
            Some(self.generate_path(start, goal, pass_bit, deny_bit, costs))
        } else {
            None
        }
    }
}

/// What the search guarantees of the route it found carries over to the
/// answer that is made of it.
proof fn lemma_answer(
    graph: Map<NodePosition, NodeView>,
    start: NodePosition,
    goal: NodePosition,
    pass_bit: usize,
    deny_bit: usize,
    costs: Map<usize, isize>,
    found: Option<Seq<NodeView>>,
)
    requires
        keyed_by_position(graph),
        graph.contains_key(start),
        graph.contains_key(goal),
        start.z == goal.z,
        found == astar_route(graph, graph[start], graph[goal], pass_bit, deny_bit, costs),
        match found {
            Some(nodes) => {
                &&& is_route(graph, pass_bit, deny_bit, costs, graph[start], goal, nodes)
                &&& nodes.no_duplicates()
                &&& estimate_admissible(graph, pass_bit, deny_bit, costs, goal) ==> is_cheapest(
                    graph,
                    pass_bit,
                    deny_bit,
                    costs,
                    graph[start],
                    goal,
                    nodes,
                )
            },
            None => forall|nodes: Seq<NodeView>|
                !#[trigger] is_route(graph, pass_bit, deny_bit, costs, graph[start], goal, nodes),
        },
    ensures
        answers(graph, start, goal, pass_bit, deny_bit, costs, path_of(found)),
{
    match found {
        Some(nodes) => {
            let forward = positions_of(nodes);
            let path = forward.reverse();
            lemma_route_is_path(graph, pass_bit, deny_bit, costs, start, goal, nodes);
            assert(path.reverse() =~= forward);
            assert(has_path(graph, pass_bit, deny_bit, costs, start, goal));
            assert forall|i: int, j: int| 0 <= i < j < path.len() implies path[i] != path[j] by {
                let a = path.len() - 1 - i;
                let b = path.len() - 1 - j;
                assert(nodes[a] != nodes[b]);
                assert(nodes_at(graph, forward)[a] == nodes[a]);
                assert(nodes_at(graph, forward)[b] == nodes[b]);
            }
            if estimate_admissible(graph, pass_bit, deny_bit, costs, goal) {
                assert forall|other: Seq<NodePosition>| #[trigger]
                    is_path(
                        graph,
                        pass_bit,
                        deny_bit,
                        costs,
                        start,
                        goal,
                        other,
                    ) implies path_cost(graph, costs, forward)
                    <= path_cost(graph, costs, other) by {
                    assert(is_route(
                        graph,
                        pass_bit,
                        deny_bit,
                        costs,
                        graph[start],
                        goal,
                        nodes_at(graph, other),
                    ));
                }
            }
        },
        None => {
            assert forall|positions: Seq<NodePosition>|
                !#[trigger] is_path(
                    graph,
                    pass_bit,
                    deny_bit,
                    costs,
                    start,
                    goal,
                    positions,
                ) by {
                assert(!is_route(
                    graph,
                    pass_bit,
                    deny_bit,
                    costs,
                    graph[start],
                    goal,
                    nodes_at(graph, positions),
                ));
            }
        },
    }
}

} // verus!
