use beacons::entity::{
    atom_text, backlinks, create, create_from_ids, create_with_ids, get, multilinks, text_value, write_atom,
    FieldValue,
    Slot, ATOM_LABEL,
};
use beacons::graph::Graph;
use beacons::label::fnv64_hash;
use beacons::schema::{compile, FieldDesc, FieldKind, Model, SchemaError, StructDesc};

fn field(name: &str, kind: FieldKind) -> FieldDesc {
    FieldDesc { name: name.to_string(), kind, backlink: None }
}

fn person() -> Model {
    let d = StructDesc { name: "Person".to_string(), fields: vec![field("name", FieldKind::Atom)] };
    compile(&d).unwrap()
}

fn text(s: &str) -> FieldValue {
    text_value(s)
}

#[test]
fn atom_label_is_hash_of_atom() {
    assert_eq!(ATOM_LABEL, fnv64_hash("Atom"));
}

#[test]
fn text_encoding_is_length_then_bytes() {
    match text_value("Ada") {
        FieldValue::Bytes(b) => assert_eq!(b, vec![3, b'A', b'd', b'a']),
        _ => panic!("expected bytes"),
    }
}

#[test]
fn compile_derives_labels() {
    let m = person();
    assert_eq!(m.label, fnv64_hash("Person"));
    assert_eq!(m.fields.len(), 1);
    assert_eq!(m.fields[0].label, fnv64_hash("Person.name"));
    assert_eq!(m.fields[0].kind, FieldKind::Atom);
}

#[test]
fn compile_rejects_reserved_id() {
    let d = StructDesc { name: "Bad".to_string(), fields: vec![field("id", FieldKind::Atom)] };
    assert_eq!(compile(&d).err(), Some(SchemaError::ReservedId));
}

#[test]
fn compile_rejects_unannotated_backlinks() {
    let d = StructDesc {
        name: "Bad".to_string(),
        fields: vec![field("ok", FieldKind::Link), field("posts", FieldKind::Backlinks)],
    };
    assert_eq!(compile(&d).err(), Some(SchemaError::MissingBacklink));
}

#[test]
fn compile_accepts_unit_struct() {
    let d = StructDesc { name: "Unit".to_string(), fields: vec![] };
    let m = compile(&d).unwrap();
    assert!(m.fields.is_empty());
}

#[test]
fn create_then_get_reads_atom() {
    let mut g = Graph::new();
    let m = person();
    let ent = create(&mut g, &m, 1, &vec![text("Ada")]).unwrap();
    let again = get(&g, &m, ent.id).unwrap();
    assert_eq!(again.id, ent.id);
    assert_eq!(atom_text(&g, again.slots[0]), Some("Ada".to_string()));
    assert_eq!(g.node(ent.id), Some(m.label));
}

#[test]
fn get_of_unknown_id_is_none() {
    let g = Graph::new();
    assert!(get(&g, &person(), 5).is_none());
}

#[test]
fn get_misses_required_field() {
    let mut g = Graph::new();
    let m = person();
    g.set_node(5, 1, Some(m.label));
    assert!(get(&g, &m, 5).is_none());
}

fn replica(m: &Model) -> Graph {
    let mut g = Graph::new();
    create_with_ids(&mut g, m, 1, 1000, &vec![text("Ada")], &vec![2000], &vec![3000]);
    g
}

fn concurrent_pair(m: &Model) -> (Graph, Graph) {
    let mut a = replica(m);
    let mut b = replica(m);
    let label = m.fields[0].label;
    let bytes_a = match text("Alice") {
        FieldValue::Bytes(b) => b,
        _ => unreachable!(),
    };
    let bytes_b = match text("Bea") {
        FieldValue::Bytes(b) => b,
        _ => unreachable!(),
    };
    write_atom(&mut a, 1000, 2000, label, 10, 4000, bytes_a);
    write_atom(&mut b, 1000, 2000, label, 20, 5000, bytes_b);
    (a, b)
}

#[test]
fn concurrent_atom_writes_converge_to_later_clock() {
    let m = person();
    let (mut a, b) = concurrent_pair(&m);
    a.join(&b);
    let ent = get(&a, &m, 1000).unwrap();
    assert_eq!(atom_text(&a, ent.slots[0]), Some("Bea".to_string()));

    let (a, mut b) = concurrent_pair(&m);
    b.join(&a);
    let ent = get(&b, &m, 1000).unwrap();
    assert_eq!(atom_text(&b, ent.slots[0]), Some("Bea".to_string()));
}

#[test]
fn backlinks_find_linking_post() {
    let mut g = Graph::new();
    let p = compile(&StructDesc {
        name: "Person".to_string(),
        fields: vec![
            field("name", FieldKind::Atom),
            FieldDesc {
                name: "posts".to_string(),
                kind: FieldKind::Backlinks,
                backlink: Some("Post.author".to_string()),
            },
        ],
    })
    .unwrap();
    let post = compile(&StructDesc { name: "Post".to_string(), fields: vec![field("author", FieldKind::Link)] })
        .unwrap();
    assert_eq!(p.fields[1].label, fnv64_hash("Post.author"));
    let ada = create(&mut g, &p, 1, &vec![text("Ada"), FieldValue::Nothing]).unwrap();
    let pst = create(&mut g, &post, 2, &vec![FieldValue::Target(ada.id)]).unwrap();
    let ada = get(&g, &p, ada.id).unwrap();
    match ada.slots[1] {
        Slot::View { owner, label } => {
            assert_eq!(owner, ada.id);
            assert_eq!(backlinks(&g, owner, label), vec![pst.id]);
        },
        _ => panic!("expected a view"),
    }
    match pst.slots[0] {
        Slot::Edge { dst, .. } => assert_eq!(dst, ada.id),
        _ => panic!("expected an edge"),
    }
}

#[test]
fn tombstoned_entity_is_not_read() {
    let mut g = Graph::new();
    let m = person();
    let ent = create(&mut g, &m, 1, &vec![text("Ada")]).unwrap();
    g.set_node(ent.id, 2, None);
    assert_eq!(g.node(ent.id), None);
    assert!(!g.query_node_label(m.label).contains(&ent.id));
    assert!(get(&g, &m, ent.id).is_none());
}

#[test]
fn multilinks_enumerate_written_edges() {
    let mut g = Graph::new();
    let m = compile(&StructDesc { name: "Multi".to_string(), fields: vec![field("items", FieldKind::Multilinks)] })
        .unwrap();
    let items_label = fnv64_hash("Multi.items");
    assert_eq!(m.fields[0].label, items_label);
    let multi = create(&mut g, &m, 1, &vec![FieldValue::Nothing]).unwrap();
    assert!(g.query_edge_src(multi.id).is_empty());
    g.set_edge(11, 2, Some((multi.id, items_label, 21)));
    g.set_edge(12, 2, Some((multi.id, items_label, 22)));
    g.set_edge(13, 2, Some((multi.id, items_label, 23)));
    let (owner, label) = match multi.slots[0] {
        Slot::View { owner, label } => (owner, label),
        _ => panic!("expected a view"),
    };
    let mut items = multilinks(&g, owner, label);
    items.sort();
    assert_eq!(items, vec![21, 22, 23]);
}

#[test]
fn options_write_edges_to_fresh_ids() {
    let mut g = Graph::new();
    let m = compile(&StructDesc {
        name: "Opt".to_string(),
        fields: vec![field("note", FieldKind::AtomOption), field("friend", FieldKind::LinkOption)],
    })
    .unwrap();
    let ent = create(&mut g, &m, 1, &vec![FieldValue::Nothing, FieldValue::Nothing]).unwrap();
    assert_eq!(g.query_edge_src(ent.id).len(), 2);
    assert!(matches!(ent.slots[0], Slot::Edge { .. }));
    assert_eq!(atom_text(&g, ent.slots[0]), None);
}

#[test]
fn undecodable_atom_reads_as_none() {
    let mut g = Graph::new();
    let m = person();
    let label = m.fields[0].label;
    g.set_node(1, 1, Some(m.label));
    write_atom(&mut g, 1, 2, label, 1, 3, vec![5, b'a']);
    let ent = get(&g, &m, 1).unwrap();
    assert_eq!(atom_text(&g, ent.slots[0]), None);
    assert_eq!(beacons::entity::atom_bytes(&g, ent.slots[0]), Some(vec![5, b'a']));
}

#[test]
fn long_text_length_is_a_varint() {
    let long = "x".repeat(200);
    match text_value(&long) {
        FieldValue::Bytes(b) => {
            assert_eq!(b.len(), 202);
            assert_eq!(&b[..2], &[200, 1]);
        },
        _ => panic!("expected bytes"),
    }
}

#[test]
fn create_from_ids_writes_and_reads_back() {
    let mut g = Graph::new();
    let m = person();
    let ent = create_from_ids(&mut g, &m, 1, 10, &vec![20], &vec![30], &vec![text("Ada")]).unwrap();
    assert_eq!(ent.id, 10);
    assert_eq!(ent.slots[0], Slot::Edge { edge: 20, dst: 30 });
    assert_eq!(atom_text(&g, ent.slots[0]), Some("Ada".to_string()));
    assert_eq!(g.node(30), Some(ATOM_LABEL));
}

#[test]
fn create_from_ids_refuses_used_or_repeated_ids() {
    let mut g = Graph::new();
    let m = person();
    create_from_ids(&mut g, &m, 1, 10, &vec![20], &vec![30], &vec![text("Ada")]).unwrap();
    assert!(create_from_ids(&mut g, &m, 2, 10, &vec![21], &vec![31], &vec![text("Bea")]).is_none());
    assert!(create_from_ids(&mut g, &m, 2, 11, &vec![20], &vec![31], &vec![text("Bea")]).is_none());
    assert!(create_from_ids(&mut g, &m, 2, 11, &vec![21], &vec![21], &vec![text("Bea")]).is_none());
    assert_eq!(g.node(11), None);
    assert_eq!(g.edge(21), None);
    assert_eq!(g.node(31), None);
    assert_eq!(g.query_edge_src(10), vec![20]);
}

#[test]
fn create_from_ids_refuses_id_with_outgoing_edge() {
    let mut g = Graph::new();
    let m = person();
    g.set_edge(99, 1, Some((10, 5, 6)));
    assert!(create_from_ids(&mut g, &m, 2, 10, &vec![20], &vec![30], &vec![text("Ada")]).is_none());
    assert_eq!(g.node(10), None);
}
