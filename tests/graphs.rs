use beacons::graph::{Action, Graph};

fn sorted(mut v: Vec<u128>) -> Vec<u128> {
    v.sort();
    v
}

#[test]
fn set_node_keeps_latest_write() {
    let mut g = Graph::new();
    g.set_node(1, 5, Some(10));
    g.set_node(1, 3, Some(20));
    assert_eq!(g.node(1), Some(10));
    g.set_node(1, 6, Some(30));
    assert_eq!(g.node(1), Some(30));
    assert_eq!(g.node(2), None);
}

#[test]
fn tombstone_removes_node_from_label_query() {
    let mut g = Graph::new();
    g.set_node(7, 1, Some(42));
    g.set_node(8, 1, Some(42));
    assert_eq!(sorted(g.query_node_label(42)), vec![7, 8]);
    let a = Action::action_node(2, 7, None);
    g.apply(&a);
    assert_eq!(g.node(7), None);
    assert_eq!(g.query_node_label(42), vec![8]);
}

#[test]
fn edge_views_follow_registers() {
    let mut g = Graph::new();
    g.set_edge(100, 1, Some((1, 5, 2)));
    g.set_edge(101, 1, Some((1, 6, 3)));
    g.set_edge(102, 1, Some((4, 5, 2)));
    assert_eq!(sorted(g.query_edge_src(1)), vec![100, 101]);
    assert_eq!(sorted(g.query_edge_label_dst(5, 2)), vec![100, 102]);
    g.set_edge(100, 2, None);
    assert_eq!(g.query_edge_src(1), vec![101]);
    assert_eq!(g.query_edge_label_dst(5, 2), vec![102]);
    assert_eq!(g.edge(100), None);
    assert_eq!(g.edge(101), Some((1, 6, 3)));
}

#[test]
fn graph_join_is_pointwise_and_symmetric() {
    let mut a = Graph::new();
    a.set_node(1, 10, Some(1));
    a.set_edge(5, 10, Some((1, 2, 3)));
    let mut b = Graph::new();
    b.set_node(1, 20, Some(2));
    b.set_node(2, 1, Some(9));
    let mut ab = Graph::new();
    ab.join(&a);
    ab.join(&b);
    let mut ba = Graph::new();
    ba.join(&b);
    ba.join(&a);
    for id in 0..6u128 {
        assert_eq!(ab.node(id), ba.node(id));
        assert_eq!(ab.edge(id), ba.edge(id));
    }
    assert_eq!(ab.node(1), Some(2));
    assert!(a.preorder(&ab));
    assert!(b.preorder(&ab));
    assert!(!ab.preorder(&a));
}

#[test]
fn comp_later_write_wins_and_id_is_neutral() {
    let a = Action::action_node(1, 3, Some(4));
    let b = Action::action_node(2, 3, Some(5));
    let ab = Action::comp(a, b);
    let mut g = Graph::new();
    g.apply(&ab);
    assert_eq!(g.node(3), Some(5));
    let with_id = Action::comp(Action::action_node(1, 3, Some(4)), Action::id());
    let mut h = Graph::new();
    h.apply(&with_id);
    assert_eq!(h.node(3), Some(4));
    assert_eq!(with_id.node_ids(), vec![3]);
    assert!(with_id.edge_ids().is_empty());
}

#[test]
fn action_edge_writes_triple() {
    let mut g = Graph::new();
    g.apply(&Action::action_edge(3, 9, Some((1, 2, 3))));
    assert_eq!(g.edge(9), Some((1, 2, 3)));
    assert_eq!(g.query_edge_src(1), vec![9]);
}
