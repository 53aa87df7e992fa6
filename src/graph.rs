//! The in-memory last-writer-wins object graph and the actions applied to it.
use vstd::prelude::*;
use crate::payloads::{Payloads, merge_payloads};
use crate::register::{Clock, EdgeValue, Register, join_spec};
use crate::table::{
    Table, join_maps, preorder_maps, reg_or_default, lemma_join_maps_associative,
    lemma_join_maps_commutative,
};

verus! {

/// An edge value as a plain triple.
pub open spec fn triple_of(v: Option<EdgeValue>) -> Option<(u128, u64, u128)> {
    match v {
        Some(e) => Some((e.src, e.label, e.dst)),
        None => None,
    }
}

/// A plain triple as an edge value.
pub open spec fn edge_of(t: Option<(u128, u64, u128)>) -> Option<EdgeValue> {
    match t {
        Some(t) => Some(EdgeValue { src: t.0, label: t.1, dst: t.2 }),
        None => None,
    }
}

fn to_edge(t: Option<(u128, u64, u128)>) -> (r: Option<EdgeValue>)
    ensures
        r == edge_of(t),
{
    match t {
        Some(t) => Some(EdgeValue::new(t.0, t.1, t.2)),
        None => None,
    }
}

fn to_triple(v: Option<EdgeValue>) -> (r: Option<(u128, u64, u128)>)
    ensures
        r == triple_of(v),
{
    match v {
        Some(e) => Some((e.src, e.label, e.dst)),
        None => None,
    }
}

/// A set of writes: a register for each node id and each edge id that it
/// touches.
pub struct Action {
    pub nodes: Table<u64>,
    pub edges: Table<EdgeValue>,
}

impl Action {
    pub open spec fn wf(&self) -> bool {
        self.nodes.wf() && self.edges.wf()
    }

    /// The action that writes nothing.
    pub fn id() -> (r: Action)
        ensures
            r.wf(),
            r.nodes@ == Map::<u128, Register<u64>>::empty(),
            r.edges@ == Map::<u128, Register<EdgeValue>>::empty(),
    {
        Action { nodes: Table::new(), edges: Table::new() }
    }

    /// The action that writes `value` to node `id` at `clock`.
    pub fn action_node(clock: Clock, id: u128, value: Option<u64>) -> (r: Action)
        ensures
            r.wf(),
            r.nodes@ == Map::<u128, Register<u64>>::empty().insert(
                id,
                Register { clock, value },
            ),
            r.edges@ == Map::<u128, Register<EdgeValue>>::empty(),
    {
        let mut nodes = Table::new();
        nodes.put(id, Register::from(clock, value));
        Action { nodes, edges: Table::new() }
    }

    /// The action that writes `value` to edge `id` at `clock`.
    pub fn action_edge(clock: Clock, id: u128, value: Option<(u128, u64, u128)>) -> (r: Action)
        ensures
            r.wf(),
            r.nodes@ == Map::<u128, Register<u64>>::empty(),
            r.edges@ == Map::<u128, Register<EdgeValue>>::empty().insert(
                id,
                Register { clock, value: edge_of(value) },
            ),
    {
        let mut edges = Table::new();
        edges.put(id, Register::from(clock, to_edge(value)));
        Action { nodes: Table::new(), edges }
    }

    /// The action that does `a` and then `b`: for each id the later write
    /// wins.
    pub fn comp(a: Action, b: Action) -> (r: Action)
        requires
            a.wf(),
            b.wf(),
        ensures
            r.wf(),
            r.nodes@ == join_maps(a.nodes@, b.nodes@),
            r.edges@ == join_maps(a.edges@, b.edges@),
    {
        let mut r = a;
        r.nodes.join_all(&b.nodes);
        r.edges.join_all(&b.edges);
        r
    }

    /// The node ids that the action writes, each once.
    pub fn node_ids(&self) -> (r: Vec<u128>)
        requires
            self.wf(),
        ensures
            r@.no_duplicates(),
            forall|k: u128| r@.contains(k) <==> self.nodes@.contains_key(k),
    {
        self.nodes.ids()
    }

    /// The edge ids that the action writes, each once.
    pub fn edge_ids(&self) -> (r: Vec<u128>)
        requires
            self.wf(),
        ensures
            r@.no_duplicates(),
            forall|k: u128| r@.contains(k) <==> self.edges@.contains_key(k),
    {
        self.edges.ids()
    }
}

/// Nodes and edges, each an independent last-writer-wins register, with the
/// payloads of atom nodes.
pub struct Graph {
    pub nodes: Table<u64>,
    pub edges: Table<EdgeValue>,
    pub atoms: Payloads,
}

impl Graph {
    pub open spec fn wf(&self) -> bool {
        self.nodes.wf() && self.edges.wf() && self.atoms.wf()
    }

    /// The label of node `id`, where it is present.
    pub open spec fn node_spec(&self, id: u128) -> Option<u64> {
        reg_or_default(self.nodes@, id).value
    }

    /// The value of edge `id`, where it is present.
    pub open spec fn edge_spec(&self, id: u128) -> Option<EdgeValue> {
        reg_or_default(self.edges@, id).value
    }

    /// The empty graph.
    pub fn new() -> (r: Graph)
        ensures
            r.wf(),
            r.nodes@ == Map::<u128, Register<u64>>::empty(),
            r.edges@ == Map::<u128, Register<EdgeValue>>::empty(),
            r.atoms@ == Map::<u128, Seq<u8>>::empty(),
    {
        Graph { nodes: Table::new(), edges: Table::new(), atoms: Payloads::new() }
    }

    /// The label of node `id`; `None` where it is absent or a tombstone.
    pub fn node(&self, id: u128) -> (r: Option<u64>)
        requires
            self.wf(),
        ensures
            r == self.node_spec(id),
    {
        match self.nodes.get(id) {
            Some(reg) => reg.value,
            None => None,
        }
    }

    /// The source, label and destination of edge `id`; `None` where it is
    /// absent or a tombstone.
    pub fn edge(&self, id: u128) -> (r: Option<(u128, u64, u128)>)
        requires
            self.wf(),
        ensures
            r == triple_of(self.edge_spec(id)),
    {
        match self.edges.get(id) {
            Some(reg) => to_triple(reg.value),
            None => None,
        }
    }

    /// Joins the write `(clock, value)` into the register of node `id`.
    pub fn set_node(&mut self, id: u128, clock: Clock, value: Option<u64>)
        requires
            old(self).wf(),
        ensures
            final(self).wf(),
            final(self).nodes@ == old(self).nodes@.insert(
                id,
                join_spec(reg_or_default(old(self).nodes@, id), Register { clock, value }),
            ),
            final(self).edges@ == old(self).edges@,
            final(self).atoms@ == old(self).atoms@,
    {
        self.nodes.join_at(id, Register::from(clock, value));
    }

    /// Joins the write `(clock, value)` into the register of edge `id`.
    pub fn set_edge(&mut self, id: u128, clock: Clock, value: Option<(u128, u64, u128)>)
        requires
            old(self).wf(),
        ensures
            final(self).wf(),
            final(self).edges@ == old(self).edges@.insert(
                id,
                join_spec(
                    reg_or_default(old(self).edges@, id),
                    Register { clock, value: edge_of(value) },
                ),
            ),
            final(self).nodes@ == old(self).nodes@,
            final(self).atoms@ == old(self).atoms@,
    {
        self.edges.join_at(id, Register::from(clock, to_edge(value)));
    }

    /// Gives node `id` the encoded value `bytes`, unless it carries one.
    pub fn set_atom(&mut self, id: u128, bytes: Vec<u8>)
        requires
            old(self).wf(),
        ensures
            final(self).wf(),
            final(self).atoms@ == (if old(self).atoms@.contains_key(id) {
                old(self).atoms@
            } else {
                old(self).atoms@.insert(id, bytes@)
            }),
            final(self).nodes@ == old(self).nodes@,
            final(self).edges@ == old(self).edges@,
    {
        self.atoms.set_if_absent(id, bytes);
    }

    /// The encoded value that node `id` carries, if any.
    pub fn atom(&self, id: u128) -> (r: Option<Vec<u8>>)
        requires
            self.wf(),
        ensures
            match r {
                Some(b) => self.atoms@.contains_key(id) && b@ == self.atoms@[id],
                None => !self.atoms@.contains_key(id),
            },
    {
        self.atoms.get(id)
    }

    /// The nodes whose present label is `label`, each once.
    pub fn query_node_label(&self, label: u64) -> (r: Vec<u128>)
        requires
            self.wf(),
        ensures
            r@.no_duplicates(),
            forall|k: u128| r@.contains(k) <==> self.node_spec(k) == Some(label),
    {
        self.nodes.ids_with_value(label)
    }

    /// The edges whose present source is `src`, each once.
    pub fn query_edge_src(&self, src: u128) -> (r: Vec<u128>)
        requires
            self.wf(),
        ensures
            r@.no_duplicates(),
            forall|k: u128|
                r@.contains(k) <==> (self.edge_spec(k) matches Some(e) && e.src == src),
    {
        self.edges.ids_with_src(src)
    }

    /// The edges whose present label is `label` and destination is `dst`,
    /// each once.
    pub fn query_edge_label_dst(&self, label: u64, dst: u128) -> (r: Vec<u128>)
        requires
            self.wf(),
        ensures
            r@.no_duplicates(),
            forall|k: u128|
                r@.contains(k) <==> (self.edge_spec(k) matches Some(e) && e.label == label
                    && e.dst == dst),
    {
        self.edges.ids_with_label_dst(label, dst)
    }

    /// Joins every write of `a` into the graph.
    pub fn apply(&mut self, a: &Action)
        requires
            old(self).wf(),
            a.wf(),
        ensures
            final(self).wf(),
            final(self).nodes@ == join_maps(old(self).nodes@, a.nodes@),
            final(self).edges@ == join_maps(old(self).edges@, a.edges@),
            final(self).atoms@ == old(self).atoms@,
    {
        self.nodes.join_all(&a.nodes);
        self.edges.join_all(&a.edges);
    }

    /// Merges another replica's state into this one.
    pub fn join(&mut self, other: &Graph)
        requires
            old(self).wf(),
            other.wf(),
        ensures
            final(self).wf(),
            final(self).nodes@ == join_maps(old(self).nodes@, other.nodes@),
            final(self).edges@ == join_maps(old(self).edges@, other.edges@),
            final(self).atoms@ == merge_payloads(old(self).atoms@, other.atoms@),
    {
        self.nodes.join_all(&other.nodes);
        self.edges.join_all(&other.edges);
        self.atoms.merge(&other.atoms);
    }

    /// Whether every register of this graph is at or below the register of
    /// `other` with the same id.
    pub fn preorder(&self, other: &Graph) -> (r: bool)
        requires
            self.wf(),
            other.wf(),
        ensures
            r == (preorder_maps(self.nodes@, other.nodes@) && preorder_maps(
                self.edges@,
                other.edges@,
            )),
    {
        self.nodes.preorder_all(&other.nodes) && self.edges.preorder_all(&other.edges)
    }
}

/// Replicas converge: joining `b` into `a` gives the registers that joining
/// `a` into `b` gives.
pub proof fn lemma_join_converges(a: Graph, b: Graph)
    ensures
        join_maps(a.nodes@, b.nodes@) == join_maps(b.nodes@, a.nodes@),
        join_maps(a.edges@, b.edges@) == join_maps(b.edges@, a.edges@),
{
    lemma_join_maps_commutative(a.nodes@, b.nodes@);
    lemma_join_maps_commutative(a.edges@, b.edges@);
}

/// Applying `comp(a, b)` gives the registers that applying `a` and then `b`
/// gives.
pub proof fn lemma_apply_comp(g: Graph, a: Action, b: Action)
    ensures
        join_maps(g.nodes@, join_maps(a.nodes@, b.nodes@)) == join_maps(join_maps(g.nodes@, a.nodes@), b.nodes@),
        join_maps(g.edges@, join_maps(a.edges@, b.edges@)) == join_maps(join_maps(g.edges@, a.edges@), b.edges@),
{
    lemma_join_maps_associative(g.nodes@, a.nodes@, b.nodes@);
    lemma_join_maps_associative(g.edges@, a.edges@, b.edges@);
}

} // verus!
