//! The graph store: the nodes of the graph, found by their position.

use crate::node::{views, Node, NodeView};
use crate::position::NodePosition;
use std::collections::BTreeMap;
use vstd::prelude::*;

verus! {

/// The graph after `node` was offered to it: a position that is taken keeps
/// the node it has, a free one gets `node`.
pub open spec fn upsert(graph: Map<NodePosition, NodeView>, node: NodeView) -> Map<
    NodePosition,
    NodeView,
> {
    if graph.contains_key(node.position) {
        graph
    } else {
        graph.insert(node.position, node)
    }
}

/// The graph after each node of `nodes` was offered to it, first to last.
pub open spec fn ingest(graph: Map<NodePosition, NodeView>, nodes: Seq<NodeView>) -> Map<
    NodePosition,
    NodeView,
>
    decreases nodes.len(),
{
    if nodes.len() == 0 {
        graph
    } else {
        upsert(ingest(graph, nodes.drop_last()), nodes.last())
    }
}

/// Every node stands at the position that it is found by.
pub open spec fn keyed_by_position(graph: Map<NodePosition, NodeView>) -> bool {
    forall|p: NodePosition| graph.contains_key(p) ==> (#[trigger] graph[p]).position == p
}

/// The key under which the store holds the node at `p`. Tuples are ordered
/// as positions are: by `x`, then `y`, then `z`.
spec fn key_of(p: NodePosition) -> (isize, isize, isize) {
    (p.x, p.y, p.z)
}

/// The set of nodes of a graph, each found by its position.
pub struct Graph {
    nodes: BTreeMap<(isize, isize, isize), Node>,
}

impl View for Graph {
    type V = Map<NodePosition, NodeView>;

    closed spec fn view(&self) -> Map<NodePosition, NodeView> {
        Map::new(
            |p: NodePosition|
                self.nodes@.contains_key(key_of(p)) && self.nodes@[key_of(p)].position == p,
            |p: NodePosition| self.nodes@[key_of(p)]@,
        )
    }
}

impl Graph {
    /// Each node is held under the key of its own position.
    #[verifier::type_invariant]
    spec fn well_keyed(self) -> bool {
        forall|k: (isize, isize, isize)|
            self.nodes@.contains_key(k) ==> key_of((#[trigger] self.nodes@[k]).position) == k
    }

    /// A graph without nodes.
    pub fn new() -> (graph: Graph)
        ensures
            graph@ == Map::<NodePosition, NodeView>::empty(),
    {
        let graph = Graph { nodes: BTreeMap::new() };
        assert(graph@ =~= Map::<NodePosition, NodeView>::empty());
        graph
    }

    /// The number of nodes.
    pub fn len(&self) -> (count: usize)
        ensures
            count == self@.len(),
    {
        proof {
            use_type_invariant(self);
            let keys = self.nodes@.dom();
            let at = |k: (isize, isize, isize)| NodePosition { x: k.0, y: k.1, z: k.2 };
            assert(keys.map(at) =~= self@.dom()) by {
                assert forall|p: NodePosition| self@.dom().contains(p) implies keys.map(
                    at,
                ).contains(p) by {
                    assert(keys.contains(key_of(p)) && at(key_of(p)) == p);
                }
            }
            assert(vstd::relations::injective_on(at, keys));
            vstd::set_lib::lemma_map_size(keys, self@.dom(), at);
        }
        self.nodes.len()
    }

    /// In every graph each node stands at the position that it is found by,
    /// and the nodes are finitely many.
    pub proof fn lemma_view(&self)
        ensures
            keyed_by_position(self@),
            self@.dom().finite(),
    {
        let keys = self.nodes@.dom();
        let at = |k: (isize, isize, isize)| NodePosition { x: k.0, y: k.1, z: k.2 };
        keys.lemma_map_finite(at);
        assert(self@.dom().subset_of(keys.map(at))) by {
            assert forall|p: NodePosition| self@.dom().contains(p) implies keys.map(at).contains(
                p,
            ) by {
                assert(keys.contains(key_of(p)) && at(key_of(p)) == p);
            }
        }
        vstd::set_lib::lemma_len_subset(self@.dom(), keys.map(at));
    }

    /// A copy of the node at `id`, if the graph has one there.
    pub fn get_node(&self, id: NodePosition) -> (found: Option<Node>)
        ensures
            match found {
                Some(node) => self@.contains_key(id) && node@ == self@[id],
                None => !self@.contains_key(id),
            },
    {
        proof {
            use_type_invariant(self);
        }
        match self.nodes.get(&(id.x, id.y, id.z)) {
            Some(node) => Some(node.clone()),
            None => None,
        }
    }

    /// Puts `node` at its position unless a node is there already; then the
    /// graph is left as it is.
    pub fn update_node(&mut self, node: Node)
        ensures
            final(self)@ == upsert(old(self)@, node@),
    {
        proof {
            use_type_invariant(&*self);
        }
        let key = (node.position.x, node.position.y, node.position.z);
        if !self.nodes.contains_key(&key) {
            // The map leaves the store while it changes: what the store holds
            // is well keyed at every moment, also if the insertion unwinds.
            let mut nodes = BTreeMap::new();
            std::mem::swap(&mut self.nodes, &mut nodes);
            nodes.insert(key, node);
            std::mem::swap(&mut self.nodes, &mut nodes);
        }
        assert(self@ =~= upsert(old(self)@, node@));
    }

    /// Offers each node of `nodes` to the graph, first to last.
    pub fn update_nodes(&mut self, nodes: Vec<Node>)
        ensures
            final(self)@ == ingest(old(self)@, views(nodes@)),
    {
        let ghost offered = views(nodes@);
        for node in it: nodes
            invariant
                it.seq() == nodes@,
                offered == views(nodes@),
                self@ == ingest(old(self)@, offered.take(it.index())),
        {
            assert(offered.take(it.index() + 1).drop_last() =~= offered.take(it.index()));
            self.update_node(node);
        }
        assert(offered.take(offered.len() as int) =~= offered);
    }

    /// Takes the node at `id` out of the graph, if there is one.
    pub fn remove_node(&mut self, id: &NodePosition)
        ensures
            final(self)@ == old(self)@.remove(*id),
    {
        proof {
            use_type_invariant(&*self);
        }
        // As in `update_node`, the map changes outside the store.
        let mut nodes = BTreeMap::new();
        std::mem::swap(&mut self.nodes, &mut nodes);
        nodes.remove(&(id.x, id.y, id.z));
        std::mem::swap(&mut self.nodes, &mut nodes);
        assert(self@ =~= old(self)@.remove(*id));
    }
}

} // verus!
