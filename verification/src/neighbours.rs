//! Which nodes can be reached from a node in one step, and at what price.

use crate::graph::Graph;
use crate::node::{step_cost, views, Node, NodeView, DISTANCE_MULTIPLIER};
use crate::position::NodePosition;
use std::collections::HashMap;
use vstd::prelude::*;

verus! {

/// A node with `mask` may be stepped on: it has one of the capabilities of
/// `pass_bit` and none of `deny_bit`.
pub open spec fn passable(mask: usize, pass_bit: usize, deny_bit: usize) -> bool {
    mask & pass_bit != 0 && mask & deny_bit == 0
}

/// The point `dx` columns and `dy` rows from `p` on the same layer, where its
/// coordinates are in range.
pub open spec fn shifted(p: NodePosition, dx: int, dy: int) -> Option<NodePosition> {
    if isize::MIN <= p.x + dx <= isize::MAX && isize::MIN <= p.y + dy <= isize::MAX {
        Some(NodePosition { x: (p.x + dx) as isize, y: (p.y + dy) as isize, z: p.z })
    } else {
        None
    }
}

/// The node of `graph` at `at`, as a list of one node or none.
pub open spec fn found_at(graph: Map<NodePosition, NodeView>, at: Option<NodePosition>) -> Seq<
    NodeView,
> {
    match at {
        Some(p) => if graph.contains_key(p) {
            seq![graph[p]]
        } else {
            Seq::empty()
        },
        None => Seq::empty(),
    }
}

/// Looks a position up in `graph`.
pub open spec fn lookup(graph: Map<NodePosition, NodeView>) -> spec_fn(NodePosition) -> Option<
    NodeView,
> {
    |p: NodePosition|
        if graph.contains_key(p) {
            Some(graph[p])
        } else {
            None
        }
}

/// The nodes of `graph` next to `node`: above (`y - 1`), right (`x + 1`),
/// below (`y + 1`) and left (`x - 1`) of it, then those that its links name,
/// in the order of the links.
pub open spec fn neighbours(graph: Map<NodePosition, NodeView>, node: NodeView) -> Seq<NodeView> {
    found_at(graph, shifted(node.position, 0, -1)) + found_at(
        graph,
        shifted(node.position, 1, 0),
    ) + found_at(graph, shifted(node.position, 0, 1)) + found_at(
        graph,
        shifted(node.position, -1, 0),
    ) + node.links.filter_map(lookup(graph))
}

/// Keeps a node that may be stepped on, with the price of the step.
pub open spec fn priced(pass_bit: usize, deny_bit: usize, costs: Map<usize, isize>) -> spec_fn(
    NodeView,
) -> Option<(NodeView, int)> {
    |node: NodeView|
        if passable(node.mask, pass_bit, deny_bit) {
            Some((node, step_cost(node.mask, costs)))
        } else {
            None
        }
}

/// The steps that can be taken from `node`: its neighbours that may be
/// stepped on, each with the price of the step, in the order of `neighbours`.
pub open spec fn successors(
    graph: Map<NodePosition, NodeView>,
    node: NodeView,
    pass_bit: usize,
    deny_bit: usize,
    costs: Map<usize, isize>,
) -> Seq<(NodeView, int)> {
    neighbours(graph, node).filter_map(priced(pass_bit, deny_bit, costs))
}

/// A list of steps as mathematical values.
pub open spec fn step_views(steps: Seq<(Node, u128)>) -> Seq<(NodeView, int)> {
    steps.map_values(|step: (Node, u128)| (step.0@, step.1 as int))
}

impl Node {
    /// The steps that can be taken from this node in `graph`.
    pub fn successors(
        &self,
        graph: &Graph,
        pass_bit: usize,
        deny_bit: usize,
        costs: &HashMap<usize, isize>,
    ) -> (steps: Vec<(Node, u128)>)
        ensures
            step_views(steps@) == successors(graph@, self@, pass_bit, deny_bit, costs@),
    {
        let pos = self.position;
        let mut found: Vec<Node> = Vec::new();
        if pos.y > isize::MIN {
            if let Some(up) = graph.get_node(pos.with_y(-1)) {
                found.push(up);
            }
        }
        assert(views(found@) =~= found_at(graph@, shifted(pos, 0, -1)));
        if pos.x < isize::MAX {
            if let Some(right) = graph.get_node(pos.with_x(1)) {
                found.push(right);
            }
        }
        assert(views(found@) =~= found_at(graph@, shifted(pos, 0, -1)) + found_at(
            graph@,
            shifted(pos, 1, 0),
        ));
        if pos.y < isize::MAX {
            if let Some(down) = graph.get_node(pos.with_y(1)) {
                found.push(down);
            }
        }
        assert(views(found@) =~= found_at(graph@, shifted(pos, 0, -1)) + found_at(
            graph@,
            shifted(pos, 1, 0),
        ) + found_at(graph@, shifted(pos, 0, 1)));
        if pos.x > isize::MIN {
            if let Some(left) = graph.get_node(pos.with_x(-1)) {
                found.push(left);
            }
        }
        let ghost grid = found_at(graph@, shifted(pos, 0, -1)) + found_at(
            graph@,
            shifted(pos, 1, 0),
        ) + found_at(graph@, shifted(pos, 0, 1)) + found_at(graph@, shifted(pos, -1, 0));
        assert(views(found@) =~= grid);

        let mut i: usize = 0;
        while i < self.links.len()
            invariant
                i <= self.links.len(),
                views(found@) == grid + self.links@.take(i as int).filter_map(lookup(graph@)),
            decreases self.links.len() - i,
        {
            let ghost before = views(found@);
            let ghost link = self.links@[i as int];
            proof {
                self.links@.lemma_filter_map_take_succ(lookup(graph@), i as int);
            }
            if let Some(node) = graph.get_node(self.links[i]) {
                found.push(node);
                assert(lookup(graph@)(link) == Some(node@));
                assert(views(found@) =~= before.push(node@));
            } else {
                assert(lookup(graph@)(link) == None::<NodeView>);
            }
            i = i + 1;
        }
        assert(self.links@.take(i as int) =~= self.links@);
        assert(views(found@) == neighbours(graph@, self@));

        let ghost keep = priced(pass_bit, deny_bit, costs@);
        let mut steps: Vec<(Node, u128)> = Vec::new();
        let mut j: usize = 0;
        while j < found.len()
            invariant
                j <= found.len(),
                keep == priced(pass_bit, deny_bit, costs@),
                step_views(steps@) == views(found@).take(j as int).filter_map(keep),
            decreases found.len() - j,
        {
            proof {
                views(found@).lemma_filter_map_take_succ(keep, j as int);
            }
            let node = &found[j];
            if (node.mask & pass_bit) != 0 && (node.mask & deny_bit) == 0 {
                let bonus: i128 = node.cost(costs);
                let price: u128 = if bonus > 0 {
                    DISTANCE_MULTIPLIER + bonus as u128
                } else {
                    DISTANCE_MULTIPLIER
                };
                steps.push((node.clone(), price));
            }
            j = j + 1;
            assert(step_views(steps@) =~= views(found@).take(j as int).filter_map(keep));
        }
        assert(views(found@).take(j as int) =~= views(found@));
        steps
    }
}

} // verus!
