//! Entities over the graph: creating one from field values, reading one back,
//! and the views of its fields.
use vstd::prelude::*;
use crate::codec::{decode_text, encode_text, mint_id, text_bytes, text_of};
use crate::graph::Graph;
use crate::payloads::copy_bytes;
use crate::register::{Clock, EdgeValue, Register, join_spec};
use crate::schema::{FieldKind, Model};
use crate::table::{lemma_join_default, reg_or_default};

verus! {

/// The label of a node that carries an atom's encoded value: the hash of
/// `Atom`.
pub const ATOM_LABEL: u64 = 1778374838758299186;

/// The value given for one field when an entity is created.
pub enum FieldValue {
    /// The encoded value of an atom.
    Bytes(Vec<u8>),
    /// The id of the entity that a link points to.
    Target(u128),
    /// No value: an absent option, or a view field.
    Nothing,
}

/// Fields of this kind are stored as one edge from the entity.
pub open spec fn writes_edge(k: FieldKind) -> bool {
    !(k is Multilinks) && !(k is Backlinks)
}

/// `v` is a value that a field of kind `k` takes.
pub open spec fn valid_value(k: FieldKind, v: FieldValue) -> bool {
    match k {
        FieldKind::Atom => v is Bytes,
        FieldKind::Link => v is Target,
        FieldKind::AtomOption => !(v is Target),
        FieldKind::LinkOption => !(v is Bytes),
        _ => v is Nothing,
    }
}

/// Where the edge of a field points: the target of a link, else the fresh
/// node minted for it.
pub open spec fn dst_of(v: FieldValue, fresh: u128) -> u128 {
    match v {
        FieldValue::Target(t) => t,
        _ => fresh,
    }
}

/// No register or payload is held for `k`.
pub open spec fn unused(g: Graph, k: u128) -> bool {
    !g.nodes@.contains_key(k) && !g.edges@.contains_key(k) && !g.atoms@.contains_key(k)
}

/// The ids minted for a new entity are distinct and unused in `g`, and no
/// present edge of `g` leaves the new entity yet.
pub open spec fn fresh_ids(g: Graph, id: u128, edge_ids: Seq<u128>, dst_ids: Seq<u128>) -> bool {
    &&& edge_ids.no_duplicates()
    &&& dst_ids.no_duplicates()
    &&& !edge_ids.contains(id)
    &&& !dst_ids.contains(id)
    &&& forall|i: int, j: int|
        0 <= i < edge_ids.len() && 0 <= j < dst_ids.len() ==> edge_ids[i] != dst_ids[j]
    &&& unused(g, id)
    &&& forall|e: u128| !(#[trigger] g.edge_spec(e) matches Some(v) && v.src == id)
    &&& forall|i: int| 0 <= i < edge_ids.len() ==> unused(g, #[trigger] edge_ids[i])
    &&& forall|i: int| 0 <= i < dst_ids.len() ==> unused(g, #[trigger] dst_ids[i])
}

/// The values fit the model's fields, one each.
pub open spec fn valid_values(m: Model, values: Seq<FieldValue>) -> bool {
    &&& values.len() == m.fields@.len()
    &&& forall|i: int| 0 <= i < values.len() ==> valid_value(m.fields@[i].kind, #[trigger] values[i])
}

/// `after` is `before` with the entity written over the first `n` fields:
/// its node, an edge for each stored field, and a node and payload for each
/// atom value.
pub open spec fn written(
    before: Graph,
    after: Graph,
    m: Model,
    clock: Clock,
    id: u128,
    values: Seq<FieldValue>,
    edge_ids: Seq<u128>,
    dst_ids: Seq<u128>,
    n: int,
) -> bool {
    &&& forall|k: u128|
        #[trigger] after.nodes@.contains_key(k) <==> (before.nodes@.contains_key(k) || k == id
            || exists|i: int| 0 <= i < n && values[i] is Bytes && dst_ids[i] == k)
    &&& forall|k: u128| #[trigger] before.nodes@.contains_key(k) ==> after.nodes@[k] == before.nodes@[k]
    &&& after.nodes@[id] == (Register { clock, value: Some(m.label) })
    &&& forall|k: u128|
        #[trigger] after.atoms@.contains_key(k) <==> (before.atoms@.contains_key(k) || exists|i: int|
            0 <= i < n && values[i] is Bytes && dst_ids[i] == k)
    &&& forall|k: u128| #[trigger] before.atoms@.contains_key(k) ==> after.atoms@[k] == before.atoms@[k]
    &&& forall|i: int|
        0 <= i < n && (#[trigger] values[i] is Bytes) ==> after.nodes@[dst_ids[i]] == (Register {
            clock,
            value: Some(ATOM_LABEL),
        }) && after.atoms@[dst_ids[i]] == values[i]->Bytes_0@
    &&& forall|k: u128|
        #[trigger] after.edges@.contains_key(k) <==> (before.edges@.contains_key(k) || exists|i: int|
            0 <= i < n && writes_edge(m.fields@[i].kind) && edge_ids[i] == k)
    &&& forall|k: u128| #[trigger] before.edges@.contains_key(k) ==> after.edges@[k] == before.edges@[k]
    &&& forall|i: int|
        0 <= i < n && writes_edge(#[trigger] m.fields@[i].kind) ==> after.edges@[edge_ids[i]] == (Register {
            clock,
            value: Some(EdgeValue { src: id, label: m.fields@[i].label, dst: dst_of(values[i], dst_ids[i]) }),
        })
}

/// Writes a new entity with the given ids: its node with the model's label,
/// then for each field an edge from it with the field's label, to the link's
/// target or to the fresh node minted for the field, which carries the
/// atom's value where there is one.
pub fn create_with_ids(
    g: &mut Graph,
    m: &Model,
    clock: Clock,
    id: u128,
    values: &Vec<FieldValue>,
    edge_ids: &Vec<u128>,
    dst_ids: &Vec<u128>,
)
    requires
        old(g).wf(),
        valid_values(*m, values@),
        edge_ids@.len() == m.fields@.len(),
        dst_ids@.len() == m.fields@.len(),
        fresh_ids(*old(g), id, edge_ids@, dst_ids@),
    ensures
        final(g).wf(),
        written(*old(g), *final(g), *m, clock, id, values@, edge_ids@, dst_ids@, m.fields@.len() as int),
{
    let ghost g0 = *g;
    proof {
        lemma_join_default(Register { clock, value: Some(m.label) });
    }
    g.set_node(id, clock, Some(m.label));
    let mut i: usize = 0;
    while i < m.fields.len()
        invariant
            g.wf(),
            i <= m.fields@.len(),
            valid_values(*m, values@),
            edge_ids@.len() == m.fields@.len(),
            dst_ids@.len() == m.fields@.len(),
            fresh_ids(g0, id, edge_ids@, dst_ids@),
            written(g0, *g, *m, clock, id, values@, edge_ids@, dst_ids@, i as int),
        decreases m.fields@.len() - i,
    {
        let ghost before = *g;
        let kind = m.fields[i].kind;
        let label = m.fields[i].label;
        let e = edge_ids[i];
        let fresh = dst_ids[i];
        assert(!before.edges@.contains_key(e)) by {
            assert(unused(g0, edge_ids@[i as int]));
            if exists|j: int| 0 <= j < i && writes_edge(m.fields@[j].kind) && edge_ids@[j] == e {
                let j = choose|j: int| 0 <= j < i && writes_edge(m.fields@[j].kind) && edge_ids@[j] == e;
                assert(edge_ids@[j] != edge_ids@[i as int]);
            }
        }
        assert(!before.nodes@.contains_key(fresh) && !before.atoms@.contains_key(fresh)) by {
            assert(unused(g0, dst_ids@[i as int]));
            assert(dst_ids@.contains(fresh));
            if exists|j: int| 0 <= j < i && values@[j] is Bytes && dst_ids@[j] == fresh {
                let j = choose|j: int| 0 <= j < i && values@[j] is Bytes && dst_ids@[j] == fresh;
                assert(dst_ids@[j] != dst_ids@[i as int]);
            }
        }
        assert(valid_value(kind, values@[i as int]));
        match &values[i] {
            FieldValue::Bytes(b) => {
                let dst = fresh;
                proof {
                    lemma_join_default(Register { clock, value: Some(EdgeValue { src: id, label, dst }) });
                    lemma_join_default(Register { clock, value: Some(ATOM_LABEL) });
                }
                g.set_edge(e, clock, Some((id, label, dst)));
                g.set_node(dst, clock, Some(ATOM_LABEL));
                g.set_atom(dst, copy_bytes(b));
            },
            FieldValue::Target(t) => {
                let dst = *t;
                proof {
                    lemma_join_default(Register { clock, value: Some(EdgeValue { src: id, label, dst }) });
                }
                g.set_edge(e, clock, Some((id, label, dst)));
            },
            FieldValue::Nothing => {
                if kind == FieldKind::AtomOption || kind == FieldKind::LinkOption {
                    let dst = fresh;
                    proof {
                        lemma_join_default(Register { clock, value: Some(EdgeValue { src: id, label, dst }) });
                    }
                    g.set_edge(e, clock, Some((id, label, dst)));
                }
            },
        }
        proof {
            let after = *g;
            assert forall|k: u128| #[trigger] after.edges@.contains_key(k) <==> (g0.edges@.contains_key(k)
                || exists|j: int| 0 <= j < i + 1 && writes_edge(m.fields@[j].kind) && edge_ids@[j] == k) by {
                if exists|j: int| 0 <= j < i + 1 && writes_edge(m.fields@[j].kind) && edge_ids@[j] == k {
                    let j = choose|j: int| 0 <= j < i + 1 && writes_edge(m.fields@[j].kind) && edge_ids@[j] == k;
                    if j < i {
                        assert(before.edges@.contains_key(k));
                    }
                }
                if before.edges@.contains_key(k) && !g0.edges@.contains_key(k) {
                    let j = choose|j: int| 0 <= j < i && writes_edge(m.fields@[j].kind) && edge_ids@[j] == k;
                    assert(0 <= j < i + 1);
                }
            }
            assert forall|k: u128| #[trigger] after.nodes@.contains_key(k) <==> (g0.nodes@.contains_key(k)
                || k == id || exists|j: int| 0 <= j < i + 1 && values@[j] is Bytes && dst_ids@[j] == k) by {
                if exists|j: int| 0 <= j < i + 1 && values@[j] is Bytes && dst_ids@[j] == k {
                    let j = choose|j: int| 0 <= j < i + 1 && values@[j] is Bytes && dst_ids@[j] == k;
                    if j < i {
                        assert(before.nodes@.contains_key(k));
                    }
                }
                if before.nodes@.contains_key(k) && !g0.nodes@.contains_key(k) && k != id {
                    let j = choose|j: int| 0 <= j < i && values@[j] is Bytes && dst_ids@[j] == k;
                    assert(0 <= j < i + 1);
                }
            }
            assert forall|k: u128| #[trigger] after.atoms@.contains_key(k) <==> (g0.atoms@.contains_key(k)
                || exists|j: int| 0 <= j < i + 1 && values@[j] is Bytes && dst_ids@[j] == k) by {
                if exists|j: int| 0 <= j < i + 1 && values@[j] is Bytes && dst_ids@[j] == k {
                    let j = choose|j: int| 0 <= j < i + 1 && values@[j] is Bytes && dst_ids@[j] == k;
                    if j < i {
                        assert(before.atoms@.contains_key(k));
                    }
                }
                if before.atoms@.contains_key(k) && !g0.atoms@.contains_key(k) {
                    let j = choose|j: int| 0 <= j < i && values@[j] is Bytes && dst_ids@[j] == k;
                    assert(0 <= j < i + 1);
                }
            }
            assert(after.nodes@[id] == before.nodes@[id]) by {
                assert(id != fresh);
            }
            assert forall|j: int|
                0 <= j < i + 1 && (#[trigger] values@[j] is Bytes) implies after.nodes@[dst_ids@[j]] == (Register {
                clock,
                value: Some(ATOM_LABEL),
            }) && after.atoms@[dst_ids@[j]] == values@[j]->Bytes_0@ by {
                if j < i {
                    assert(dst_ids@[j] != fresh);
                    assert(before.nodes@.contains_key(dst_ids@[j]));
                    assert(before.atoms@.contains_key(dst_ids@[j]));
                }
            }
            assert forall|j: int|
                0 <= j < i + 1 && writes_edge(#[trigger] m.fields@[j].kind) implies after.edges@[edge_ids@[j]] == (Register {
                clock,
                value: Some(EdgeValue { src: id, label: m.fields@[j].label, dst: dst_of(values@[j], dst_ids@[j]) }),
            }) by {
                if j < i {
                    assert(edge_ids@[j] != e);
                    assert(before.edges@.contains_key(edge_ids@[j]));
                }
            }
        }
        i += 1;
    }
}

/// What a read entity holds for one field.
#[derive(Clone, Copy, Debug, PartialEq, Eq, Structural)]
pub enum Slot {
    /// A stored field: the edge found for it and where it points.
    Edge { edge: u128, dst: u128 },
    /// An optional field for which no edge was found.
    Missing,
    /// A view field: the entity and the label that its links are found by.
    View { owner: u128, label: u64 },
}

/// An entity read back from the graph: its id and a slot for each field.
pub struct Entity {
    pub id: u128,
    pub slots: Vec<Slot>,
}

/// Fields of this kind must have an edge for the entity to be read.
pub open spec fn required(k: FieldKind) -> bool {
    k is Atom || k is Link
}

/// Some present edge leaves `id` with `label`.
pub open spec fn has_field_edge(g: Graph, id: u128, label: u64) -> bool {
    exists|e: u128| #[trigger] g.edge_spec(e) matches Some(v) && v.src == id && v.label == label
}

/// Entity `id` can be read: its node is present and every required field
/// has an edge.
pub open spec fn readable(g: Graph, m: Model, id: u128) -> bool {
    &&& g.node_spec(id) is Some
    &&& forall|j: int|
        0 <= j < m.fields@.len() && required(#[trigger] m.fields@[j].kind) ==> has_field_edge(
            g,
            id,
            m.fields@[j].label,
        )
}

/// `s` is what reading entity `id` gives for field `j`.
pub open spec fn slot_ok(g: Graph, m: Model, id: u128, j: int, s: Slot) -> bool {
    let f = m.fields@[j];
    if writes_edge(f.kind) {
        if has_field_edge(g, id, f.label) {
            s matches Slot::Edge { edge, dst } && g.edge_spec(edge) == Some(
                EdgeValue { src: id, label: f.label, dst },
            )
        } else {
            s is Missing
        }
    } else {
        s == Slot::View { owner: id, label: f.label }
    }
}

/// `h` is an edge and its destination, and that edge is present, from `id`
/// with `label`.
pub open spec fn hit_ok(g: Graph, id: u128, label: u64, h: (u128, u128)) -> bool {
    let (edge, dst) = h;
    g.edge_spec(edge) == Some(EdgeValue { src: id, label, dst })
}

fn is_stored(k: FieldKind) -> (r: bool)
    ensures
        r == writes_edge(k),
{
    !(k == FieldKind::Multilinks || k == FieldKind::Backlinks)
}

/// Reads entity `id` of model `m`: `None` where its node is absent or a
/// tombstone, or a required field has no edge.
pub fn get(g: &Graph, m: &Model, id: u128) -> (r: Option<Entity>)
    requires
        g.wf(),
    ensures
        r is Some <==> readable(*g, *m, id),
        r matches Some(ent) ==> ent.id == id && ent.slots@.len() == m.fields@.len() && forall|j: int|
            0 <= j < m.fields@.len() ==> slot_ok(*g, *m, id, j, #[trigger] ent.slots@[j]),
{
    if g.node(id).is_none() {
        return None;
    }
    let n = m.fields.len();
    let es = g.query_edge_src(id);
    let mut found: Vec<Option<(u128, u128)>> = Vec::new();
    let mut j: usize = 0;
    while j < n
        invariant
            j <= n,
            n == m.fields@.len(),
            found@.len() == j,
            forall|x: int| 0 <= x < j ==> found@[x] is None,
        decreases n - j,
    {
        found.push(None);
        j += 1;
    }
    let mut i: usize = 0;
    while i < es.len()
        invariant
            g.wf(),
            n == m.fields@.len(),
            i <= es@.len(),
            found@.len() == n,
            forall|k: u128| es@.contains(k) <==> (g.edge_spec(k) matches Some(e) && e.src == id),
            forall|x: int|
                0 <= x < n && (#[trigger] found@[x]) is Some ==> writes_edge(m.fields@[x].kind)
                    && hit_ok(*g, id, m.fields@[x].label, found@[x]->0),
            forall|x: int, y: int|
                0 <= x < n && 0 <= y < i && (#[trigger] found@[x]) is None && writes_edge(
                    m.fields@[x].kind,
                ) ==> !(g.edge_spec(#[trigger] es@[y]) matches Some(v) && v.label == m.fields@[x].label),
        decreases es@.len() - i,
    {
        let e = es[i];
        assert(es@.contains(e));
        if let Some((_, label, dst)) = g.edge(e) {
            let mut x: usize = 0;
            while x < n
                invariant
                    g.wf(),
                    n == m.fields@.len(),
                    i < es@.len(),
                    e == es@[i as int],
                    g.edge_spec(e) == Some(EdgeValue { src: id, label, dst }),
                    x <= n,
                    found@.len() == n,
                    forall|z: int|
                        0 <= z < n && (#[trigger] found@[z]) is Some ==> writes_edge(m.fields@[z].kind)
                            && hit_ok(*g, id, m.fields@[z].label, found@[z]->0),
                    forall|z: int, y: int|
                        0 <= z < n && 0 <= y < i && (#[trigger] found@[z]) is None && writes_edge(
                            m.fields@[z].kind,
                        ) ==> !(g.edge_spec(#[trigger] es@[y]) matches Some(v) && v.label
                            == m.fields@[z].label),
                    forall|z: int|
                        0 <= z < x && (#[trigger] found@[z]) is None && writes_edge(m.fields@[z].kind)
                            ==> m.fields@[z].label != label,
                decreases n - x,
            {
                if is_stored(m.fields[x].kind) && m.fields[x].label == label {
                    found.set(x, Some((e, dst)));
                }
                x += 1;
            }
        }
        i += 1;
    }
    let mut slots: Vec<Slot> = Vec::new();
    let mut j: usize = 0;
    while j < n
        invariant
            g.wf(),
            n == m.fields@.len(),
            g.node_spec(id) is Some,
            j <= n,
            found@.len() == n,
            slots@.len() == j,
            forall|k: u128| es@.contains(k) <==> (g.edge_spec(k) matches Some(e) && e.src == id),
            forall|x: int|
                0 <= x < n && (#[trigger] found@[x]) is Some ==> writes_edge(m.fields@[x].kind)
                    && hit_ok(*g, id, m.fields@[x].label, found@[x]->0),
            forall|x: int, y: int|
                0 <= x < n && 0 <= y < es@.len() && (#[trigger] found@[x]) is None && writes_edge(
                    m.fields@[x].kind,
                ) ==> !(g.edge_spec(#[trigger] es@[y]) matches Some(v) && v.label == m.fields@[x].label),
            forall|x: int| 0 <= x < j ==> slot_ok(*g, *m, id, x, #[trigger] slots@[x]),
            forall|x: int| 0 <= x < j && required(#[trigger] m.fields@[x].kind) ==> has_field_edge(
                *g,
                id,
                m.fields@[x].label,
            ),
        decreases n - j,
    {
        let kind = m.fields[j].kind;
        let label = m.fields[j].label;
        let slot = match found[j] {
            Some((e, dst)) => {
                assert(found@[j as int] is Some);
                assert(g.edge_spec(e) matches Some(v) && v.src == id && v.label == label);
                assert(has_field_edge(*g, id, label));
                Slot::Edge { edge: e, dst }
            },
            None => {
                if is_stored(kind) {
                    assert(!has_field_edge(*g, id, label)) by {
                        if has_field_edge(*g, id, label) {
                            let e = choose|e: u128| #[trigger] g.edge_spec(e) matches Some(v) && v.src == id
                                && v.label == label;
                            assert(es@.contains(e));
                            let y = choose|y: int| 0 <= y < es@.len() && es@[y] == e;
                            assert(found@[j as int] is None);
                        }
                    }
                    if kind == FieldKind::Atom || kind == FieldKind::Link {
                        return None;
                    }
                    Slot::Missing
                } else {
                    Slot::View { owner: id, label }
                }
            },
        };
        slots.push(slot);
        j += 1;
    }
    Some(Entity { id, slots })
}

/// The destinations of the present edges from `owner` with `label`; an
/// entity's multi-links field.
pub fn multilinks(g: &Graph, owner: u128, label: u64) -> (r: Vec<u128>)
    requires
        g.wf(),
    ensures
        forall|d: u128|
            r@.contains(d) <==> exists|e: u128|
                #[trigger] g.edge_spec(e) == Some(EdgeValue { src: owner, label, dst: d }),
{
    let es = g.query_edge_src(owner);
    let mut r: Vec<u128> = Vec::new();
    let mut i: usize = 0;
    while i < es.len()
        invariant
            g.wf(),
            i <= es@.len(),
            forall|k: u128| es@.contains(k) <==> (g.edge_spec(k) matches Some(e) && e.src == owner),
            forall|d: u128|
                r@.contains(d) <==> exists|y: int|
                    0 <= y < i && g.edge_spec(es@[y]) == Some(EdgeValue { src: owner, label, dst: d }),
        decreases es@.len() - i,
    {
        let e = es[i];
        assert(es@.contains(e));
        let ghost prev = r@;
        if let Some((_, l, dst)) = g.edge(e) {
            if l == label {
                r.push(dst);
            }
        }
        assert forall|d: u128|
            r@.contains(d) <==> exists|y: int|
                0 <= y < i + 1 && g.edge_spec(es@[y]) == Some(EdgeValue { src: owner, label, dst: d }) by {
            if r@.contains(d) {
                let q = choose|q: int| 0 <= q < r@.len() && r@[q] == d;
                if q < prev.len() {
                    assert(prev[q] == d);
                    assert(prev.contains(d));
                }
            }
            if exists|y: int| 0 <= y < i + 1 && g.edge_spec(es@[y]) == Some(EdgeValue { src: owner, label, dst: d }) {
                let y = choose|y: int| 0 <= y < i + 1 && g.edge_spec(es@[y]) == Some(EdgeValue { src: owner, label, dst: d });
                if y < i {
                    assert(prev.contains(d));
                    let q = choose|q: int| 0 <= q < prev.len() && prev[q] == d;
                    assert(r@[q] == d);
                } else {
                    assert(r@[r@.len() - 1] == d);
                }
            }
        }
        i += 1;
    }
    assert forall|d: u128|
        r@.contains(d) <==> exists|e: u128| #[trigger] g.edge_spec(e) == Some(EdgeValue { src: owner, label, dst: d }) by {
        if exists|e: u128| #[trigger] g.edge_spec(e) == Some(EdgeValue { src: owner, label, dst: d }) {
            let e = choose|e: u128| #[trigger] g.edge_spec(e) == Some(EdgeValue { src: owner, label, dst: d });
            assert(es@.contains(e));
            let y = choose|y: int| 0 <= y < es@.len() && es@[y] == e;
        }
    }
    r
}

/// The sources of the present edges with `label` into `target`; an
/// entity's back-links field.
pub fn backlinks(g: &Graph, target: u128, label: u64) -> (r: Vec<u128>)
    requires
        g.wf(),
    ensures
        forall|s: u128|
            r@.contains(s) <==> exists|e: u128|
                #[trigger] g.edge_spec(e) == Some(EdgeValue { src: s, label, dst: target }),
{
    let es = g.query_edge_label_dst(label, target);
    let mut r: Vec<u128> = Vec::new();
    let mut i: usize = 0;
    while i < es.len()
        invariant
            g.wf(),
            i <= es@.len(),
            forall|k: u128|
                es@.contains(k) <==> (g.edge_spec(k) matches Some(e) && e.label == label && e.dst == target),
            forall|s: u128|
                r@.contains(s) <==> exists|y: int|
                    0 <= y < i && g.edge_spec(es@[y]) == Some(EdgeValue { src: s, label, dst: target }),
        decreases es@.len() - i,
    {
        let e = es[i];
        assert(es@.contains(e));
        let ghost prev = r@;
        if let Some((src, _, _)) = g.edge(e) {
            r.push(src);
        }
        assert forall|s: u128|
            r@.contains(s) <==> exists|y: int|
                0 <= y < i + 1 && g.edge_spec(es@[y]) == Some(EdgeValue { src: s, label, dst: target }) by {
            if r@.contains(s) {
                let q = choose|q: int| 0 <= q < r@.len() && r@[q] == s;
                if q < prev.len() {
                    assert(prev[q] == s);
                    assert(prev.contains(s));
                }
            }
            if exists|y: int| 0 <= y < i + 1 && g.edge_spec(es@[y]) == Some(EdgeValue { src: s, label, dst: target }) {
                let y = choose|y: int| 0 <= y < i + 1 && g.edge_spec(es@[y]) == Some(EdgeValue { src: s, label, dst: target });
                if y < i {
                    assert(prev.contains(s));
                    let q = choose|q: int| 0 <= q < prev.len() && prev[q] == s;
                    assert(r@[q] == s);
                } else {
                    assert(r@[r@.len() - 1] == s);
                }
            }
        }
        i += 1;
    }
    assert forall|s: u128|
        r@.contains(s) <==> exists|e: u128| #[trigger] g.edge_spec(e) == Some(EdgeValue { src: s, label, dst: target }) by {
        if exists|e: u128| #[trigger] g.edge_spec(e) == Some(EdgeValue { src: s, label, dst: target }) {
            let e = choose|e: u128| #[trigger] g.edge_spec(e) == Some(EdgeValue { src: s, label, dst: target });
            assert(es@.contains(e));
            let y = choose|y: int| 0 <= y < es@.len() && es@[y] == e;
        }
    }
    r
}

/// The field value that holds `s` as an atom: its encoding.
pub fn text_value(s: &str) -> (r: FieldValue)
    ensures
        r matches FieldValue::Bytes(b) && b@ == text_bytes(s@) && text_of(b@) == Some(s@),
{
    FieldValue::Bytes(encode_text(s))
}

/// The encoded value that a read field points to: `None` where the slot has
/// no edge or its destination carries no payload.
pub fn atom_bytes(g: &Graph, slot: Slot) -> (r: Option<Vec<u8>>)
    requires
        g.wf(),
    ensures
        match slot {
            Slot::Edge { dst, .. } => match r {
                Some(b) => g.atoms@.contains_key(dst) && b@ == g.atoms@[dst],
                None => !g.atoms@.contains_key(dst),
            },
            _ => r is None,
        },
{
    match slot {
        Slot::Edge { dst, .. } => g.atom(dst),
        _ => None,
    }
}

/// The text that a read field holds: the decoding of its atom's payload.
pub fn atom_text(g: &Graph, slot: Slot) -> (r: Option<String>)
    requires
        g.wf(),
    ensures
        match slot {
            Slot::Edge { dst, .. } => if g.atoms@.contains_key(dst) {
                (r is Some == text_of(g.atoms@[dst]) is Some) && (r matches Some(t) ==> t@ == text_of(
                    g.atoms@[dst],
                )->0)
            } else {
                r is None
            },
            _ => r is None,
        },
{
    match atom_bytes(g, slot) {
        Some(b) => decode_text(&b),
        None => None,
    }
}

/// Points field edge `edge` of `owner` at the fresh node `dst`, which
/// carries `bytes`: the write that sets an atom field at `clock`.
pub fn write_atom(g: &mut Graph, owner: u128, edge: u128, label: u64, clock: Clock, dst: u128, bytes: Vec<u8>)
    requires
        old(g).wf(),
    ensures
        final(g).wf(),
        final(g).edges@ == old(g).edges@.insert(
            edge,
            join_spec(
                reg_or_default(old(g).edges@, edge),
                Register { clock, value: Some(EdgeValue { src: owner, label, dst }) },
            ),
        ),
        final(g).nodes@ == old(g).nodes@.insert(
            dst,
            join_spec(
                reg_or_default(old(g).nodes@, dst),
                Register { clock, value: Some(ATOM_LABEL) },
            ),
        ),
        final(g).atoms@ == (if old(g).atoms@.contains_key(dst) {
            old(g).atoms@
        } else {
            old(g).atoms@.insert(dst, bytes@)
        }),
{
    g.set_edge(edge, clock, Some((owner, label, dst)));
    g.set_node(dst, clock, Some(ATOM_LABEL));
    g.set_atom(dst, bytes);
}

fn contains_id(v: &Vec<u128>, k: u128) -> (r: bool)
    ensures
        r == v@.contains(k),
{
    let mut i: usize = 0;
    while i < v.len()
        invariant
            i <= v@.len(),
            forall|j: int| 0 <= j < i ==> v@[j] != k,
        decreases v@.len() - i,
    {
        if v[i] == k {
            return true;
        }
        i += 1;
    }
    false
}

fn is_unused(g: &Graph, k: u128) -> (r: bool)
    requires
        g.wf(),
    ensures
        r == unused(*g, k),
{
    !g.nodes.contains(k) && !g.edges.contains(k) && g.atom(k).is_none()
}

fn no_duplicates(v: &Vec<u128>) -> (r: bool)
    ensures
        r == v@.no_duplicates(),
{
    let mut i: usize = 0;
    while i < v.len()
        invariant
            i <= v@.len(),
            forall|a: int, b: int| 0 <= a < b < v@.len() && a < i ==> v@[a] != v@[b],
        decreases v@.len() - i,
    {
        let mut j: usize = i + 1;
        while j < v.len()
            invariant
                i < v@.len(),
                i + 1 <= j <= v@.len(),
                forall|a: int, b: int| 0 <= a < b < v@.len() && a < i ==> v@[a] != v@[b],
                forall|b: int| i < b < j ==> v@[i as int] != v@[b],
            decreases v@.len() - j,
        {
            if v[i] == v[j] {
                return false;
            }
            j += 1;
        }
        i += 1;
    }
    true
}

fn all_unused(g: &Graph, v: &Vec<u128>) -> (r: bool)
    requires
        g.wf(),
    ensures
        r == forall|i: int| 0 <= i < v@.len() ==> unused(*g, #[trigger] v@[i]),
{
    let mut i: usize = 0;
    while i < v.len()
        invariant
            g.wf(),
            i <= v@.len(),
            forall|j: int| 0 <= j < i ==> unused(*g, #[trigger] v@[j]),
        decreases v@.len() - i,
    {
        if !is_unused(g, v[i]) {
            return false;
        }
        i += 1;
    }
    true
}

fn disjoint(a: &Vec<u128>, b: &Vec<u128>) -> (r: bool)
    ensures
        r == forall|i: int, j: int| 0 <= i < a@.len() && 0 <= j < b@.len() ==> a@[i] != b@[j],
{
    let mut j: usize = 0;
    while j < b.len()
        invariant
            j <= b@.len(),
            forall|i: int, k: int| 0 <= i < a@.len() && 0 <= k < j ==> a@[i] != b@[k],
        decreases b@.len() - j,
    {
        if contains_id(a, b[j]) {
            return false;
        }
        j += 1;
    }
    true
}

fn check_fresh(g: &Graph, id: u128, edge_ids: &Vec<u128>, dst_ids: &Vec<u128>) -> (r: bool)
    requires
        g.wf(),
    ensures
        r == fresh_ids(*g, id, edge_ids@, dst_ids@),
{
    no_duplicates(edge_ids) && no_duplicates(dst_ids) && !contains_id(edge_ids, id) && !contains_id(
        dst_ids,
        id,
    ) && disjoint(edge_ids, dst_ids) && is_unused(g, id) && no_edge_from(g, id) && all_unused(
        g,
        edge_ids,
    ) && all_unused(g, dst_ids)
}

fn no_edge_from(g: &Graph, id: u128) -> (r: bool)
    requires
        g.wf(),
    ensures
        r == forall|e: u128| !(#[trigger] g.edge_spec(e) matches Some(v) && v.src == id),
{
    let es = g.query_edge_src(id);
    if es.len() == 0 {
        assert forall|e: u128| !(#[trigger] g.edge_spec(e) matches Some(v) && v.src == id) by {
            if g.edge_spec(e) matches Some(v) && v.src == id {
                assert(es@.contains(e));
            }
        }
        true
    } else {
        assert(es@.contains(es@[0]));
        false
    }
}

/// An atom field that is written when an entity is created reads back as
/// the value it was given, where no other stored field shares its label.
pub proof fn lemma_created_atom(
    before: Graph,
    after: Graph,
    m: Model,
    clock: Clock,
    id: u128,
    values: Seq<FieldValue>,
    edge_ids: Seq<u128>,
    dst_ids: Seq<u128>,
    j: int,
    slot: Slot,
)
    requires
        valid_values(m, values),
        edge_ids.len() == m.fields@.len(),
        dst_ids.len() == m.fields@.len(),
        fresh_ids(before, id, edge_ids, dst_ids),
        written(before, after, m, clock, id, values, edge_ids, dst_ids, m.fields@.len() as int),
        0 <= j < m.fields@.len(),
        values[j] is Bytes,
        forall|k: int|
            0 <= k < m.fields@.len() && k != j && writes_edge(#[trigger] m.fields@[k].kind)
                ==> m.fields@[k].label != m.fields@[j].label,
        slot_ok(after, m, id, j, slot),
    ensures
        slot matches Slot::Edge { dst, .. } && after.atoms@.contains_key(dst) && after.atoms@[dst]
            == values[j]->Bytes_0@,
{
    let f = m.fields@[j];
    assert(valid_value(f.kind, values[j]));
    assert(writes_edge(f.kind));
    assert(after.edges@.contains_key(edge_ids[j]));
    assert(after.edge_spec(edge_ids[j]) matches Some(v) && v.src == id && v.label == f.label);
    assert(has_field_edge(after, id, f.label));
    let (edge, dst) = match slot {
        Slot::Edge { edge, dst } => (edge, dst),
        _ => (0, 0),
    };
    assert(after.edges@.contains_key(edge));
    if before.edges@.contains_key(edge) {
        assert(before.edge_spec(edge) matches Some(v) && v.src == id);
    } else {
        let k = choose|k: int|
            0 <= k < m.fields@.len() && writes_edge(m.fields@[k].kind) && edge_ids[k] == edge;
        assert(k == j);
        assert(dst == dst_ids[j]);
        assert(after.atoms@[dst_ids[j]] == values[j]->Bytes_0@);
    }
}

/// A freshly written entity can be read back.
proof fn lemma_written_readable(
    before: Graph,
    after: Graph,
    m: Model,
    clock: Clock,
    id: u128,
    values: Seq<FieldValue>,
    edge_ids: Seq<u128>,
    dst_ids: Seq<u128>,
)
    requires
        valid_values(m, values),
        edge_ids.len() == m.fields@.len(),
        dst_ids.len() == m.fields@.len(),
        written(before, after, m, clock, id, values, edge_ids, dst_ids, m.fields@.len() as int),
    ensures
        readable(after, m, id),
{
    assert(after.nodes@.contains_key(id));
    assert forall|j: int|
        0 <= j < m.fields@.len() && required(#[trigger] m.fields@[j].kind) implies has_field_edge(
        after,
        id,
        m.fields@[j].label,
    ) by {
        assert(writes_edge(m.fields@[j].kind));
        assert(after.edges@.contains_key(edge_ids[j]));
        assert(after.edge_spec(edge_ids[j]) matches Some(v) && v.src == id && v.label == m.fields@[j].label);
    }
}

/// Creates an entity of model `m` at `clock` with the given ids, and reads it
/// back: `None`, with nothing written, exactly where the ids are not distinct
/// or not unused in `g`.
pub fn create_from_ids(
    g: &mut Graph,
    m: &Model,
    clock: Clock,
    id: u128,
    edge_ids: &Vec<u128>,
    dst_ids: &Vec<u128>,
    values: &Vec<FieldValue>,
) -> (r: Option<Entity>)
    requires
        old(g).wf(),
        valid_values(*m, values@),
        edge_ids@.len() == m.fields@.len(),
        dst_ids@.len() == m.fields@.len(),
    ensures
        final(g).wf(),
        r is Some <==> fresh_ids(*old(g), id, edge_ids@, dst_ids@),
        r is None ==> final(g).nodes@ == old(g).nodes@ && final(g).edges@ == old(g).edges@
            && final(g).atoms@ == old(g).atoms@,
        r matches Some(ent) ==> {
            &&& ent.id == id
            &&& written(*old(g), *final(g), *m, clock, id, values@, edge_ids@, dst_ids@, m.fields@.len() as int)
            &&& ent.slots@.len() == m.fields@.len()
            &&& forall|j: int|
                0 <= j < m.fields@.len() ==> slot_ok(*final(g), *m, id, j, #[trigger] ent.slots@[j])
        },
{
    if !check_fresh(g, id, edge_ids, dst_ids) {
        return None;
    }
    let ghost g0 = *g;
    create_with_ids(g, m, clock, id, values, edge_ids, dst_ids);
    proof {
        lemma_written_readable(g0, *g, *m, clock, id, values@, edge_ids@, dst_ids@);
    }
    get(g, m, id)
}

fn draw_ids(n: usize) -> (r: Vec<u128>)
    ensures
        r@.len() == n,
{
    let mut v: Vec<u128> = Vec::new();
    let mut i: usize = 0;
    while i < n
        invariant
            i <= n,
            v@.len() == i,
        decreases n - i,
    {
        v.push(mint_id());
        i += 1;
    }
    v
}

/// Creates an entity of model `m` at `clock` with freshly drawn random ids,
/// and reads it back. `None`, with nothing written, where a drawn id
/// collides.
pub fn create(g: &mut Graph, m: &Model, clock: Clock, values: &Vec<FieldValue>) -> (r: Option<Entity>)
    requires
        old(g).wf(),
        valid_values(*m, values@),
    ensures
        final(g).wf(),
        r is None ==> final(g).nodes@ == old(g).nodes@ && final(g).edges@ == old(g).edges@
            && final(g).atoms@ == old(g).atoms@,
        r matches Some(ent) ==> {
            &&& exists|edge_ids: Seq<u128>, dst_ids: Seq<u128>|
                edge_ids.len() == m.fields@.len() && dst_ids.len() == m.fields@.len() && fresh_ids(
                    *old(g),
                    ent.id,
                    edge_ids,
                    dst_ids,
                ) && #[trigger] written(
                    *old(g),
                    *final(g),
                    *m,
                    clock,
                    ent.id,
                    values@,
                    edge_ids,
                    dst_ids,
                    m.fields@.len() as int,
                )
            &&& ent.slots@.len() == m.fields@.len()
            &&& forall|j: int|
                0 <= j < m.fields@.len() ==> slot_ok(*final(g), *m, ent.id, j, #[trigger] ent.slots@[j])
        },
{
    let id = mint_id();
    let n = m.fields.len();
    let edge_ids = draw_ids(n);
    let dst_ids = draw_ids(n);
    let r = create_from_ids(g, m, clock, id, &edge_ids, &dst_ids, values);
    proof {
        if r is Some {
            assert(written(*old(g), *g, *m, clock, id, values@, edge_ids@, dst_ids@, n as int));
        }
    }
    r
}

/// Creating an entity writes no edge for its view fields: where every field
/// is a multi-links or back-links view, the edges are left as they were.
pub proof fn lemma_views_write_no_edge(
    before: Graph,
    after: Graph,
    m: Model,
    clock: Clock,
    id: u128,
    values: Seq<FieldValue>,
    edge_ids: Seq<u128>,
    dst_ids: Seq<u128>,
)
    requires
        forall|j: int| 0 <= j < m.fields@.len() ==> !writes_edge(#[trigger] m.fields@[j].kind),
        written(before, after, m, clock, id, values, edge_ids, dst_ids, m.fields@.len() as int),
    ensures
        after.edges@ == before.edges@,
{
    assert(after.edges@ =~= before.edges@);
}

} // verus!
