use pathfinder::{Graph, Node, NodePosition};

fn node(x: isize, y: isize, z: isize, mask: usize, links: Vec<NodePosition>) -> Node {
    Node {
        position: NodePosition::new(x, y, z),
        mask,
        links,
    }
}

#[test]
fn empty_graph_holds_nothing() {
    let graph = Graph::new();
    assert_eq!(graph.len(), 0);
    assert_eq!(graph.get_node(NodePosition::new(0, 0, 0)), None);
    assert_eq!(graph.get_node(NodePosition::new(-3, 7, 2)), None);
}

#[test]
fn get_returns_nothing_until_an_upsert_targets_the_position() {
    let mut graph = Graph::new();
    let p = NodePosition::new(2, -1, 0);
    assert_eq!(graph.get_node(p), None);
    graph.update_node(node(5, 5, 5, 1, vec![]));
    assert_eq!(graph.get_node(p), None);
    graph.update_node(node(2, -1, 0, 4, vec![NodePosition::new(9, 9, 9)]));
    assert_eq!(
        graph.get_node(p),
        Some(node(2, -1, 0, 4, vec![NodePosition::new(9, 9, 9)]))
    );
}

#[test]
fn first_upsert_stays_after_later_upserts() {
    let mut graph = Graph::new();
    let p = NodePosition::new(1, 2, 3);
    let first = node(1, 2, 3, 7, vec![NodePosition::new(0, 0, 0)]);
    graph.update_node(first.clone());
    graph.update_node(node(1, 2, 3, 8, vec![]));
    graph.update_node(node(
        1,
        2,
        3,
        0,
        vec![NodePosition::new(4, 4, 4), NodePosition::new(5, 5, 5)],
    ));
    assert_eq!(graph.get_node(p), Some(first.clone()));
    assert_eq!(graph.get_node(p), Some(first));
    assert_eq!(graph.len(), 1);
}

#[test]
fn remove_then_get_returns_nothing() {
    let mut graph = Graph::new();
    let p = NodePosition::new(3, 3, 0);
    graph.update_node(node(3, 3, 0, 1, vec![]));
    graph.update_node(node(4, 3, 0, 2, vec![]));
    graph.remove_node(&p);
    assert_eq!(graph.get_node(p), None);
    assert_eq!(graph.get_node(NodePosition::new(4, 3, 0)), Some(node(4, 3, 0, 2, vec![])));
    assert_eq!(graph.len(), 1);
}

#[test]
fn remove_of_an_absent_position_changes_nothing() {
    let mut graph = Graph::new();
    graph.remove_node(&NodePosition::new(0, 0, 0));
    assert_eq!(graph.len(), 0);
    graph.update_node(node(1, 0, 0, 1, vec![]));
    graph.remove_node(&NodePosition::new(0, 0, 0));
    graph.remove_node(&NodePosition::new(1, 0, 1));
    assert_eq!(graph.len(), 1);
    assert_eq!(graph.get_node(NodePosition::new(1, 0, 0)), Some(node(1, 0, 0, 1, vec![])));
}

#[test]
fn a_node_can_be_changed_by_remove_and_upsert() {
    let mut graph = Graph::new();
    let p = NodePosition::new(0, 0, 0);
    graph.update_node(node(0, 0, 0, 1, vec![]));
    graph.remove_node(&p);
    graph.update_node(node(0, 0, 0, 2, vec![NodePosition::new(0, 0, 1)]));
    assert_eq!(
        graph.get_node(p),
        Some(node(0, 0, 0, 2, vec![NodePosition::new(0, 0, 1)]))
    );
}

#[test]
fn update_nodes_offers_each_record_in_order() {
    let mut graph = Graph::new();
    graph.update_nodes(vec![
        node(0, 0, 0, 1, vec![]),
        node(1, 0, 0, 2, vec![]),
        node(0, 0, 0, 4, vec![NodePosition::new(1, 0, 0)]),
        node(1, 0, 0, 8, vec![]),
        node(2, 0, 0, 16, vec![]),
    ]);
    assert_eq!(graph.len(), 3);
    assert_eq!(graph.get_node(NodePosition::new(0, 0, 0)), Some(node(0, 0, 0, 1, vec![])));
    assert_eq!(graph.get_node(NodePosition::new(1, 0, 0)), Some(node(1, 0, 0, 2, vec![])));
    assert_eq!(graph.get_node(NodePosition::new(2, 0, 0)), Some(node(2, 0, 0, 16, vec![])));
}

#[test]
fn update_nodes_with_no_records_changes_nothing() {
    let mut graph = Graph::new();
    graph.update_node(node(0, 0, 0, 1, vec![]));
    graph.update_nodes(vec![]);
    assert_eq!(graph.len(), 1);
}

#[test]
fn positions_that_differ_in_one_coordinate_are_different_nodes() {
    let mut graph = Graph::new();
    graph.update_node(node(1, 2, 3, 1, vec![]));
    graph.update_node(node(1, 2, 4, 2, vec![]));
    graph.update_node(node(1, 3, 3, 3, vec![]));
    graph.update_node(node(2, 2, 3, 4, vec![]));
    assert_eq!(graph.len(), 4);
    assert_eq!(graph.get_node(NodePosition::new(1, 2, 3)).map(|n| n.mask), Some(1));
    assert_eq!(graph.get_node(NodePosition::new(1, 2, 4)).map(|n| n.mask), Some(2));
    assert_eq!(graph.get_node(NodePosition::new(1, 3, 3)).map(|n| n.mask), Some(3));
    assert_eq!(graph.get_node(NodePosition::new(2, 2, 3)).map(|n| n.mask), Some(4));
    assert_eq!(graph.get_node(NodePosition::new(3, 2, 1)), None);
}

#[test]
fn get_hands_out_a_copy() {
    let mut graph = Graph::new();
    graph.update_node(node(0, 0, 0, 1, vec![NodePosition::new(1, 1, 1)]));
    let mut copy = graph.get_node(NodePosition::new(0, 0, 0)).unwrap();
    copy.mask = 99;
    copy.links.push(NodePosition::new(2, 2, 2));
    assert_eq!(
        graph.get_node(NodePosition::new(0, 0, 0)),
        Some(node(0, 0, 0, 1, vec![NodePosition::new(1, 1, 1)]))
    );
}

#[test]
fn extreme_coordinates_are_kept() {
    let mut graph = Graph::new();
    graph.update_node(node(isize::MIN, isize::MAX, isize::MIN, 1, vec![]));
    graph.update_node(node(isize::MAX, isize::MIN, isize::MAX, 2, vec![]));
    assert_eq!(
        graph.get_node(NodePosition::new(isize::MIN, isize::MAX, isize::MIN)).map(|n| n.mask),
        Some(1)
    );
    assert_eq!(
        graph.get_node(NodePosition::new(isize::MAX, isize::MIN, isize::MAX)).map(|n| n.mask),
        Some(2)
    );
}
