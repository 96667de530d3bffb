//! Nodes: a position, a capability mask and explicit links.

use crate::cost::{bonus_of_entries, lemma_entries_sum, mask_bonus};
use crate::position::NodePosition;
use std::collections::HashMap;
use vstd::prelude::*;
use vstd::std_specs::iter::IteratorSpec;

verus! {

/// What one step costs before any bonus, and the unit of the distance estimate.
pub const DISTANCE_MULTIPLIER: u128 = 100;

/// One traversable point: where it is, what it is, and where else it leads
/// besides its four grid neighbours.
#[derive(Debug, PartialEq, Eq, Hash, PartialOrd, Ord)]
pub struct Node {
    pub position: NodePosition,
    pub mask: usize,
    pub links: Vec<NodePosition>,
}

/// A node as a mathematical value.
pub struct NodeView {
    pub position: NodePosition,
    pub mask: usize,
    pub links: Seq<NodePosition>,
}

impl View for Node {
    type V = NodeView;

    open spec fn view(&self) -> NodeView {
        NodeView { position: self.position, mask: self.mask, links: self.links@ }
    }
}

/// A list of nodes as mathematical values.
pub open spec fn views(nodes: Seq<Node>) -> Seq<NodeView> {
    nodes.map_values(|node: Node| node@)
}

impl Clone for Node {
    fn clone(&self) -> (copy: Self)
        ensures
            copy@ == self@,
    {
        let mut links: Vec<NodePosition> = Vec::with_capacity(self.links.len());
        let mut i: usize = 0;
        while i < self.links.len()
            invariant
                i <= self.links.len(),
                links@ == self.links@.take(i as int),
            decreases self.links.len() - i,
        {
            links.push(self.links[i]);
            i = i + 1;
        }
        assert(links@ =~= self.links@);
        Node { position: self.position, mask: self.mask, links }
    }
}

impl Default for Node {
    /// A plain grid cell at the origin: no capability, no links.
    fn default() -> (node: Self)
        ensures
            node@ == (NodeView { position: NodePosition::origin(), mask: 0, links: Seq::empty() }),
    {
        Node { position: NodePosition { x: 0, y: 0, z: 0 }, mask: 0, links: Vec::new() }
    }
}

/// The distance between two integers.
pub open spec fn gap(a: int, b: int) -> int {
    if a <= b {
        b - a
    } else {
        a - b
    }
}

/// The Manhattan distance between two points, over all three axes.
pub open spec fn manhattan(a: NodePosition, b: NodePosition) -> int {
    gap(a.x as int, b.x as int) + gap(a.y as int, b.y as int) + gap(a.z as int, b.z as int)
}

/// The estimate of what a route from `a` to `b` costs at least.
pub open spec fn estimate(a: NodePosition, b: NodePosition) -> int {
    DISTANCE_MULTIPLIER * manhattan(a, b)
}

/// What it costs to step onto a node with `mask`: the base cost, plus the
/// bonus of the cost table where that is positive.
pub open spec fn step_cost(mask: usize, costs: Map<usize, isize>) -> int {
    if mask_bonus(mask, costs) > 0 {
        DISTANCE_MULTIPLIER + mask_bonus(mask, costs)
    } else {
        DISTANCE_MULTIPLIER as int
    }
}

fn axis_gap(a: isize, b: isize) -> (d: u128)
    ensures
        d == gap(a as int, b as int),
{
    if a <= b {
        (b as i128 - a as i128) as u128
    } else {
        (a as i128 - b as i128) as u128
    }
}

impl Node {
    /// The signed sum of the weights of all entries of `costs` whose bit
    /// pattern shares a set bit with this node's mask.
    pub fn cost(&self, costs: &HashMap<usize, isize>) -> (total: i128)
        ensures
            total == mask_bonus(self.mask, costs@),
    {
        let mask: usize = self.mask;
        let mut total: i128 = 0;
        let ghost all = costs.iter().remaining();
        assert(all.len() == costs.len());
        // No weight is further than 2^63 from zero, and the table has fewer
        // than 2^64 entries: the sum stays in the range of `i128`.
        for (bit, weight) in it: costs.iter()
            invariant
                it.seq() == all,
                all.no_duplicates(),
                all.len() <= usize::MAX,
                total == bonus_of_entries(mask, all.take(it.index())),
                -(it.index() * 0x8000_0000_0000_0000) <= total <= it.index()
                    * 0x8000_0000_0000_0000,
        {
            proof {
                assert(all.take(it.index() + 1).drop_last() =~= all.take(it.index()));
            }
            if mask & *bit != 0 {
                total = total + *weight as i128;
            }
        }
        proof {
            assert(all.take(all.len() as int) =~= all);
            assert forall|i: int, j: int| 0 <= i < j < all.len() implies *(#[trigger] all[i]).0
                != *(#[trigger] all[j]).0 by {
                assert(costs@[*all[i].0] == *all[i].1);
                assert(costs@[*all[j].0] == *all[j].1);
                assert(all[i] != all[j]);
            }
            lemma_entries_sum(mask, costs@, costs@.dom(), all);
        }
        total
    }

    /// The Manhattan distance to `other`, times the base cost of a step.
    pub fn distance(&self, other: &Self) -> (d: u128)
        ensures
            d == estimate(self.position, other.position),
    {
        let dx: u128 = axis_gap(self.position.x, other.position.x);
        let dy: u128 = axis_gap(self.position.y, other.position.y);
        let dz: u128 = axis_gap(self.position.z, other.position.z);
        (dx + dy + dz) * DISTANCE_MULTIPLIER
    }
}

} // verus!
