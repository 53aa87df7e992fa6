use beacons::graph::Graph;
use beacons::persistent::{edge_of_columns, ObjectGraph, Row};
use beacons::register::{EdgeValue, Register};

#[test]
fn table_names_follow_namespace() {
    let pg = ObjectGraph::new("col", "people");
    assert_eq!(pg.nodes_table(), "col.people.nodes");
    assert_eq!(pg.edges_table(), "col.people.edges");
}

#[test]
fn load_apply_save_free_reload_round_trip() {
    let mut pg = ObjectGraph::new("c", "n");
    pg.load_node(1, None);
    assert!(pg.is_node_loaded(1));
    let a = ObjectGraph::action_node(5, 1, Some(77));
    let ids = a.node_ids();
    pg.apply(&a);
    let (rows, edges) = pg.saves(&ids, &vec![]);
    assert!(edges.is_empty());
    assert_eq!(rows, vec![(1, Register::from(5, Some(77)))]);
    pg.free();
    assert!(!pg.is_node_loaded(1));
    assert_eq!(pg.node(1), None);
    pg.loads(&vec![Row { id: 1, stored: Some(rows[0].1) }], &vec![]);
    assert_eq!(pg.save_node(1), Some(Register::from(5, Some(77))));
    assert_eq!(pg.node(1), Some(77));
}

#[test]
fn load_keeps_already_loaded_register() {
    let mut pg = ObjectGraph::new("c", "n");
    pg.load_node(1, Some(Register::from(3, Some(1))));
    pg.load_node(1, Some(Register::from(9, Some(2))));
    assert_eq!(pg.node(1), Some(1));
    pg.load_node(2, None);
    assert_eq!(pg.save_node(2), Some(Register::new()));
}

#[test]
fn edges_load_save_unload() {
    let mut pg = ObjectGraph::new("c", "n");
    pg.load_edge(4, Some(Register::from(2, Some(EdgeValue::new(1, 2, 3)))));
    assert_eq!(pg.edge(4), Some((1, 2, 3)));
    let a = ObjectGraph::action_edge(3, 4, None);
    pg.apply(&a);
    assert_eq!(pg.edge(4), None);
    assert_eq!(pg.save_edge(4), Some(Register::from(3, None)));
    pg.unload_edge(4);
    assert!(!pg.is_edge_loaded(4));
    assert_eq!(pg.save_edge(4), None);
}

#[test]
fn unloads_drop_listed_ids() {
    let mut pg = ObjectGraph::new("c", "n");
    pg.loads(
        &vec![Row { id: 1, stored: None }, Row { id: 2, stored: None }],
        &vec![Row { id: 3, stored: None }],
    );
    pg.unloads(&vec![1], &vec![3]);
    assert!(!pg.is_node_loaded(1));
    assert!(pg.is_node_loaded(2));
    assert!(!pg.is_edge_loaded(3));
    pg.unload_node(2);
    assert!(!pg.is_node_loaded(2));
}

#[test]
fn join_and_preq_against_other_state() {
    let mut pg = ObjectGraph::new("c", "n");
    pg.load_node(1, Some(Register::from(1, Some(5))));
    let mut t = Graph::new();
    t.set_node(1, 2, Some(6));
    assert!(pg.preq(&t));
    pg.join(&t);
    assert_eq!(pg.node(1), Some(6));
    assert!(pg.preq(&t));
    let c = ObjectGraph::comp(ObjectGraph::id(), ObjectGraph::action_node(9, 1, Some(1)));
    pg.apply(&c);
    assert!(!pg.preq(&t));
}

#[test]
fn edge_columns_need_all_three_values() {
    assert_eq!(edge_of_columns(Some(1), Some(2), Some(3)), Some(EdgeValue::new(1, 2, 3)));
    assert_eq!(edge_of_columns(Some(1), None, Some(3)), None);
    assert_eq!(edge_of_columns(None, None, None), None);
}

#[test]
fn saved_edges_reload_after_free() {
    let mut pg = ObjectGraph::new("c", "n");
    pg.loads(&vec![], &vec![Row { id: 8, stored: None }]);
    pg.apply(&ObjectGraph::action_edge(4, 8, Some((1, 2, 3))));
    let (_, rows) = pg.saves(&vec![], &vec![8, 9]);
    assert_eq!(rows, vec![(8, Register::from(4, Some(EdgeValue::new(1, 2, 3))))]);
    pg.free();
    assert_eq!(pg.edge(8), None);
    pg.loads(&vec![], &vec![Row { id: 8, stored: Some(rows[0].1) }]);
    assert_eq!(pg.edge(8), Some((1, 2, 3)));
}
