//! The persistent object graph: the in-memory graph holds the registers that
//! were loaded from a backing store, and hands back the ones to write to it.
use vstd::prelude::*;
use crate::graph::{Action, Graph, edge_of, triple_of};
use crate::payloads::merge_payloads;
use crate::register::{Clock, EdgeValue, Register};
use crate::table::{default_reg, join_maps, preorder_maps};

verus! {

/// What the backing store holds for one id: its register, or nothing where
/// the id has no row.
#[derive(Clone, Copy, Debug, PartialEq, Eq)]
pub struct Row<V> {
    pub id: u128,
    pub stored: Option<Register<V>>,
}

/// The register that a row installs: the stored one, or the default one.
pub open spec fn installed<V>(r: Option<Register<V>>) -> Register<V> {
    match r {
        Some(reg) => reg,
        None => default_reg(),
    }
}

/// `rows[j]` is the first row for its id.
pub open spec fn first_for<V>(rows: Seq<Row<V>>, j: int) -> bool {
    forall|i: int| 0 <= i < j ==> rows[i].id != rows[j].id
}

/// The table after loading `rows` into `before`: an id loaded already keeps
/// its register, any other id of the rows gets the one of its first row.
pub open spec fn loaded_from<V>(
    before: Map<u128, Register<V>>,
    rows: Seq<Row<V>>,
    after: Map<u128, Register<V>>,
) -> bool {
    &&& forall|k: u128|
        #[trigger] after.contains_key(k) <==> (before.contains_key(k) || exists|j: int|
            0 <= j < rows.len() && rows[j].id == k)
    &&& forall|k: u128| #[trigger] before.contains_key(k) ==> after[k] == before[k]
    &&& forall|j: int|
        0 <= j < rows.len() && !before.contains_key(rows[j].id) && first_for(rows, j) ==> after[rows[j].id]
            == installed(#[trigger] rows[j].stored)
}

/// The registers of `ids` that `m` holds, each paired with its id: every pair
/// is one of `m`, and every id of `ids` that `m` holds has a pair.
pub open spec fn rows_of<V>(m: Map<u128, Register<V>>, ids: Seq<u128>, out: Seq<(u128, Register<V>)>) -> bool {
    &&& forall|i: int|
        0 <= i < out.len() ==> ids.contains(#[trigger] out[i].0) && m.contains_key(out[i].0)
            && m[out[i].0] == out[i].1
    &&& forall|k: u128|
        ids.contains(k) && #[trigger] m.contains_key(k) ==> exists|i: int| 0 <= i < out.len() && out[i].0 == k
}

/// The edge value that a stored row's columns hold: one where source, label
/// and destination are all there, none otherwise.
pub fn edge_of_columns(src: Option<u128>, label: Option<u64>, dst: Option<u128>) -> (r: Option<EdgeValue>)
    ensures
        r == (if src is Some && label is Some && dst is Some {
            Some(EdgeValue { src: src->0, label: label->0, dst: dst->0 })
        } else {
            None
        }),
{
    match (src, label, dst) {
        (Some(s), Some(l), Some(d)) => Some(EdgeValue::new(s, l, d)),
        _ => None,
    }
}

/// A *persistent* last-writer-wins object graph. The ids that are loaded are
/// those that the in-memory graph holds a register for.
pub struct ObjectGraph {
    inner: Graph,
    collection: String,
    name: String,
}

impl ObjectGraph {
    /// The in-memory graph.
    pub closed spec fn graph(&self) -> Graph {
        self.inner
    }

    pub closed spec fn collection_spec(&self) -> Seq<char> {
        self.collection@
    }

    pub closed spec fn name_spec(&self) -> Seq<char> {
        self.name@
    }

    pub open spec fn wf(&self) -> bool {
        self.graph().wf()
    }

    /// An object graph with nothing loaded, over the tables of namespace
    /// `(collection, name)`.
    pub fn new(collection: &str, name: &str) -> (r: Self)
        ensures
            r.wf(),
            r.graph().nodes@ == Map::<u128, Register<u64>>::empty(),
            r.graph().edges@ == Map::<u128, Register<EdgeValue>>::empty(),
            r.collection_spec() == collection@,
            r.name_spec() == name@,
    {
        ObjectGraph { inner: Graph::new(), collection: collection.to_owned(), name: name.to_owned() }
    }

    /// The name of the table of nodes: `collection.name.nodes`.
    pub fn nodes_table(&self) -> (r: String)
        ensures
            r@ == self.collection_spec() + seq!['.'] + self.name_spec() + seq!['.', 'n', 'o', 'd', 'e', 's'],
    {
        let r = self.collection.clone().concat(".").concat(self.name.as_str()).concat(".nodes");
        proof {
            reveal_strlit(".");
            reveal_strlit(".nodes");
        }
        r
    }

    /// The name of the table of edges: `collection.name.edges`.
    pub fn edges_table(&self) -> (r: String)
        ensures
            r@ == self.collection_spec() + seq!['.'] + self.name_spec() + seq!['.', 'e', 'd', 'g', 'e', 's'],
    {
        let r = self.collection.clone().concat(".").concat(self.name.as_str()).concat(".edges");
        proof {
            reveal_strlit(".");
            reveal_strlit(".edges");
        }
        r
    }

    /// Whether node `id` is loaded.
    pub fn is_node_loaded(&self, id: u128) -> (r: bool)
        requires
            self.wf(),
        ensures
            r == self.graph().nodes@.contains_key(id),
    {
        self.inner.nodes.contains(id)
    }

    /// Whether edge `id` is loaded.
    pub fn is_edge_loaded(&self, id: u128) -> (r: bool)
        requires
            self.wf(),
        ensures
            r == self.graph().edges@.contains_key(id),
    {
        self.inner.edges.contains(id)
    }

    /// Loads node `id` from what the store holds for it, unless it is loaded
    /// already.
    pub fn load_node(&mut self, id: u128, stored: Option<Register<u64>>)
        requires
            old(self).wf(),
        ensures
            final(self).wf(),
            final(self).graph().nodes@ == (if old(self).graph().nodes@.contains_key(id) {
                old(self).graph().nodes@
            } else {
                old(self).graph().nodes@.insert(id, installed(stored))
            }),
            final(self).graph().edges@ == old(self).graph().edges@,
            final(self).graph().atoms@ == old(self).graph().atoms@,
            final(self).collection_spec() == old(self).collection_spec(),
            final(self).name_spec() == old(self).name_spec(),
    {
        if !self.inner.nodes.contains(id) {
            let reg = match stored {
                Some(r) => r,
                None => Register::new(),
            };
            self.inner.nodes.put(id, reg);
        }
    }

    /// Loads edge `id` from what the store holds for it, unless it is loaded
    /// already.
    pub fn load_edge(&mut self, id: u128, stored: Option<Register<EdgeValue>>)
        requires
            old(self).wf(),
        ensures
            final(self).wf(),
            final(self).graph().edges@ == (if old(self).graph().edges@.contains_key(id) {
                old(self).graph().edges@
            } else {
                old(self).graph().edges@.insert(id, installed(stored))
            }),
            final(self).graph().nodes@ == old(self).graph().nodes@,
            final(self).graph().atoms@ == old(self).graph().atoms@,
            final(self).collection_spec() == old(self).collection_spec(),
            final(self).name_spec() == old(self).name_spec(),
    {
        if !self.inner.edges.contains(id) {
            let reg = match stored {
                Some(r) => r,
                None => Register::new(),
            };
            self.inner.edges.put(id, reg);
        }
    }

    /// The register to write to the store for node `id`: `None` where the
    /// node is not loaded.
    pub fn save_node(&self, id: u128) -> (r: Option<Register<u64>>)
        requires
            self.wf(),
        ensures
            r == (if self.graph().nodes@.contains_key(id) {
                Some(self.graph().nodes@[id])
            } else {
                None
            }),
    {
        self.inner.nodes.get(id)
    }

    /// The register to write to the store for edge `id`: `None` where the
    /// edge is not loaded.
    pub fn save_edge(&self, id: u128) -> (r: Option<Register<EdgeValue>>)
        requires
            self.wf(),
        ensures
            r == (if self.graph().edges@.contains_key(id) {
                Some(self.graph().edges@[id])
            } else {
                None
            }),
    {
        self.inner.edges.get(id)
    }

    /// Drops node `id` from memory. What was not saved is lost.
    pub fn unload_node(&mut self, id: u128)
        requires
            old(self).wf(),
        ensures
            final(self).wf(),
            final(self).graph().nodes@ == old(self).graph().nodes@.remove(id),
            final(self).graph().edges@ == old(self).graph().edges@,
            final(self).graph().atoms@ == old(self).graph().atoms@,
            final(self).collection_spec() == old(self).collection_spec(),
            final(self).name_spec() == old(self).name_spec(),
    {
        self.inner.nodes.remove(id);
    }

    /// Drops edge `id` from memory. What was not saved is lost.
    pub fn unload_edge(&mut self, id: u128)
        requires
            old(self).wf(),
        ensures
            final(self).wf(),
            final(self).graph().edges@ == old(self).graph().edges@.remove(id),
            final(self).graph().nodes@ == old(self).graph().nodes@,
            final(self).graph().atoms@ == old(self).graph().atoms@,
            final(self).collection_spec() == old(self).collection_spec(),
            final(self).name_spec() == old(self).name_spec(),
    {
        self.inner.edges.remove(id);
    }

    /// The label of node `id`, as loaded.
    pub fn node(&self, id: u128) -> (r: Option<u64>)
        requires
            self.wf(),
        ensures
            r == self.graph().node_spec(id),
    {
        self.inner.node(id)
    }

    /// The source, label and destination of edge `id`, as loaded.
    pub fn edge(&self, id: u128) -> (r: Option<(u128, u64, u128)>)
        requires
            self.wf(),
        ensures
            r == triple_of(self.graph().edge_spec(id)),
    {
        self.inner.edge(id)
    }

    /// The action that writes `value` to node `id` at `clock`.
    pub fn action_node(clock: Clock, id: u128, value: Option<u64>) -> (r: Action)
        ensures
            r.wf(),
            r.nodes@ == Map::<u128, Register<u64>>::empty().insert(
                id,
                Register { clock, value },
            ),
            r.edges@ == Map::<u128, Register<EdgeValue>>::empty(),
    {
        Action::action_node(clock, id, value)
    }

    /// The action that writes `value` to edge `id` at `clock`.
    pub fn action_edge(clock: Clock, id: u128, value: Option<(u128, u64, u128)>) -> (r: Action)
        ensures
            r.wf(),
            r.nodes@ == Map::<u128, Register<u64>>::empty(),
            r.edges@ == Map::<u128, Register<EdgeValue>>::empty().insert(
                id,
                Register { clock, value: edge_of(value) },
            ),
    {
        Action::action_edge(clock, id, value)
    }

    /// Loads the nodes of `ns` and the edges of `es` from the rows that the
    /// store holds for them.
    pub fn loads(&mut self, ns: &Vec<Row<u64>>, es: &Vec<Row<EdgeValue>>)
        requires
            old(self).wf(),
        ensures
            final(self).wf(),
            loaded_from(old(self).graph().nodes@, ns@, final(self).graph().nodes@),
            loaded_from(old(self).graph().edges@, es@, final(self).graph().edges@),
            final(self).graph().atoms@ == old(self).graph().atoms@,
            final(self).collection_spec() == old(self).collection_spec(),
            final(self).name_spec() == old(self).name_spec(),
    {
        let ghost n0 = self.graph().nodes@;
        let ghost e0 = self.graph().edges@;
        let mut i: usize = 0;
        while i < ns.len()
            invariant
                self.wf(),
                i <= ns@.len(),
                loaded_from(n0, ns@.take(i as int), self.graph().nodes@),
                self.graph().edges@ == e0,
                self.graph().atoms@ == old(self).graph().atoms@,
                self.collection_spec() == old(self).collection_spec(),
                self.name_spec() == old(self).name_spec(),
            decreases ns@.len() - i,
        {
            let row = ns[i];
            let ghost before = self.graph().nodes@;
            self.load_node(row.id, row.stored);
            proof {
                lemma_load_step(n0, ns@, i as int, before, self.graph().nodes@);
            }
            i += 1;
        }
        assert(ns@.take(ns@.len() as int) =~= ns@);
        let mut i: usize = 0;
        while i < es.len()
            invariant
                self.wf(),
                i <= es@.len(),
                loaded_from(n0, ns@, self.graph().nodes@),
                loaded_from(e0, es@.take(i as int), self.graph().edges@),
                self.graph().atoms@ == old(self).graph().atoms@,
                self.collection_spec() == old(self).collection_spec(),
                self.name_spec() == old(self).name_spec(),
            decreases es@.len() - i,
        {
            let row = es[i];
            let ghost before = self.graph().edges@;
            self.load_edge(row.id, row.stored);
            proof {
                lemma_load_step(e0, es@, i as int, before, self.graph().edges@);
            }
            i += 1;
        }
        assert(es@.take(es@.len() as int) =~= es@);
    }

    /// The registers to write to the store for the loaded nodes of `ns` and
    /// the loaded edges of `es`.
    pub fn saves(&self, ns: &Vec<u128>, es: &Vec<u128>) -> (r: (
        Vec<(u128, Register<u64>)>,
        Vec<(u128, Register<EdgeValue>)>,
    ))
        requires
            self.wf(),
        ensures
            rows_of(self.graph().nodes@, ns@, r.0@),
            rows_of(self.graph().edges@, es@, r.1@),
    {
        let mut out_n: Vec<(u128, Register<u64>)> = Vec::new();
        let mut i: usize = 0;
        while i < ns.len()
            invariant
                self.wf(),
                i <= ns@.len(),
                rows_of(self.graph().nodes@, ns@.take(i as int), out_n@),
            decreases ns@.len() - i,
        {
            let id = ns[i];
            let ghost prev = out_n@;
            if let Some(reg) = self.save_node(id) {
                out_n.push((id, reg));
            }
            proof {
                lemma_save_step(self.graph().nodes@, ns@, i as int, prev, out_n@);
            }
            i += 1;
        }
        assert(ns@.take(ns@.len() as int) =~= ns@);
        let mut out_e: Vec<(u128, Register<EdgeValue>)> = Vec::new();
        let mut i: usize = 0;
        while i < es.len()
            invariant
                self.wf(),
                i <= es@.len(),
                rows_of(self.graph().edges@, es@.take(i as int), out_e@),
            decreases es@.len() - i,
        {
            let id = es[i];
            let ghost prev = out_e@;
            if let Some(reg) = self.save_edge(id) {
                out_e.push((id, reg));
            }
            proof {
                lemma_save_step(self.graph().edges@, es@, i as int, prev, out_e@);
            }
            i += 1;
        }
        assert(es@.take(es@.len() as int) =~= es@);
        (out_n, out_e)
    }

    /// Drops the nodes of `ns` and the edges of `es` from memory.
    pub fn unloads(&mut self, ns: &Vec<u128>, es: &Vec<u128>)
        requires
            old(self).wf(),
        ensures
            final(self).wf(),
            final(self).graph().nodes@ == old(self).graph().nodes@.remove_keys(ns@.to_set()),
            final(self).graph().edges@ == old(self).graph().edges@.remove_keys(es@.to_set()),
            final(self).graph().atoms@ == old(self).graph().atoms@,
            final(self).collection_spec() == old(self).collection_spec(),
            final(self).name_spec() == old(self).name_spec(),
    {
        let mut i: usize = 0;
        while i < ns.len()
            invariant
                self.wf(),
                i <= ns@.len(),
                self.graph().nodes@ == old(self).graph().nodes@.remove_keys(ns@.take(i as int).to_set()),
                self.graph().edges@ == old(self).graph().edges@,
                self.graph().atoms@ == old(self).graph().atoms@,
                self.collection_spec() == old(self).collection_spec(),
                self.name_spec() == old(self).name_spec(),
            decreases ns@.len() - i,
        {
            self.unload_node(ns[i]);
            assert(ns@.take(i + 1).to_set() =~= ns@.take(i as int).to_set().insert(ns@[i as int])) by {
                assert(ns@.take(i + 1) =~= ns@.take(i as int).push(ns@[i as int]));
                ns@.take(i as int).lemma_push_to_set_commute(ns@[i as int]);
            }
            assert(self.graph().nodes@ =~= old(self).graph().nodes@.remove_keys(ns@.take(i + 1).to_set()));
            i += 1;
        }
        assert(ns@.take(ns@.len() as int) =~= ns@);
        let mut i: usize = 0;
        while i < es.len()
            invariant
                self.wf(),
                i <= es@.len(),
                self.graph().nodes@ == old(self).graph().nodes@.remove_keys(ns@.to_set()),
                self.graph().edges@ == old(self).graph().edges@.remove_keys(es@.take(i as int).to_set()),
                self.graph().atoms@ == old(self).graph().atoms@,
                self.collection_spec() == old(self).collection_spec(),
                self.name_spec() == old(self).name_spec(),
            decreases es@.len() - i,
        {
            self.unload_edge(es[i]);
            assert(es@.take(i + 1).to_set() =~= es@.take(i as int).to_set().insert(es@[i as int])) by {
                assert(es@.take(i + 1) =~= es@.take(i as int).push(es@[i as int]));
                es@.take(i as int).lemma_push_to_set_commute(es@[i as int]);
            }
            assert(self.graph().edges@ =~= old(self).graph().edges@.remove_keys(es@.take(i + 1).to_set()));
            i += 1;
        }
        assert(es@.take(es@.len() as int) =~= es@);
    }

    /// Drops everything from memory; the store is authoritative again.
    pub fn free(&mut self)
        requires
            old(self).wf(),
        ensures
            final(self).wf(),
            final(self).graph().nodes@ == Map::<u128, Register<u64>>::empty(),
            final(self).graph().edges@ == Map::<u128, Register<EdgeValue>>::empty(),
            final(self).graph().atoms@ == Map::<u128, Seq<u8>>::empty(),
            final(self).collection_spec() == old(self).collection_spec(),
            final(self).name_spec() == old(self).name_spec(),
    {
        self.inner = Graph::new();
    }

    /// Joins every write of `a` into the loaded registers. The ids of `a` are
    /// to be loaded first, and saved after.
    pub fn apply(&mut self, a: &Action)
        requires
            old(self).wf(),
            a.wf(),
        ensures
            final(self).wf(),
            final(self).graph().nodes@ == join_maps(old(self).graph().nodes@, a.nodes@),
            final(self).graph().edges@ == join_maps(old(self).graph().edges@, a.edges@),
            final(self).graph().atoms@ == old(self).graph().atoms@,
            final(self).collection_spec() == old(self).collection_spec(),
            final(self).name_spec() == old(self).name_spec(),
    {
        self.inner.apply(a);
    }

    /// Merges another replica's state into the loaded registers. The ids of
    /// `t` are to be loaded first, and saved after.
    pub fn join(&mut self, t: &Graph)
        requires
            old(self).wf(),
            t.wf(),
        ensures
            final(self).wf(),
            final(self).graph().nodes@ == join_maps(old(self).graph().nodes@, t.nodes@),
            final(self).graph().edges@ == join_maps(old(self).graph().edges@, t.edges@),
            final(self).graph().atoms@ == merge_payloads(old(self).graph().atoms@, t.atoms@),
            final(self).collection_spec() == old(self).collection_spec(),
            final(self).name_spec() == old(self).name_spec(),
    {
        self.inner.join(t);
    }

    /// Whether the loaded registers are at or below those of `t`. The ids of
    /// `t` are to be loaded first.
    pub fn preq(&self, t: &Graph) -> (r: bool)
        requires
            self.wf(),
            t.wf(),
        ensures
            r == (preorder_maps(self.graph().nodes@, t.nodes@) && preorder_maps(
                self.graph().edges@,
                t.edges@,
            )),
    {
        self.inner.preorder(t)
    }

    /// The action that writes nothing.
    pub fn id() -> (r: Action)
        ensures
            r.wf(),
            r.nodes@ == Map::<u128, Register<u64>>::empty(),
            r.edges@ == Map::<u128, Register<EdgeValue>>::empty(),
    {
        Action::id()
    }

    /// The action that does `a` and then `b`.
    pub fn comp(a: Action, b: Action) -> (r: Action)
        requires
            a.wf(),
            b.wf(),
        ensures
            r.wf(),
            r.nodes@ == join_maps(a.nodes@, b.nodes@),
            r.edges@ == join_maps(a.edges@, b.edges@),
    {
        Action::comp(a, b)
    }
}

proof fn lemma_load_step<V>(
    start: Map<u128, Register<V>>,
    rows: Seq<Row<V>>,
    i: int,
    before: Map<u128, Register<V>>,
    after: Map<u128, Register<V>>,
)
    requires
        0 <= i < rows.len(),
        loaded_from(start, rows.take(i), before),
        after == (if before.contains_key(rows[i].id) {
            before
        } else {
            before.insert(rows[i].id, installed(rows[i].stored))
        }),
    ensures
        loaded_from(start, rows.take(i + 1), after),
{
    let p = rows.take(i);
    let q = rows.take(i + 1);
    assert forall|k: u128| #[trigger] after.contains_key(k) <==> (start.contains_key(k) || exists|j: int|
        0 <= j < q.len() && q[j].id == k) by {
        if exists|j: int| 0 <= j < q.len() && q[j].id == k {
            let j = choose|j: int| 0 <= j < q.len() && q[j].id == k;
            if j < i {
                assert(p[j].id == k);
            }
        }
        if before.contains_key(k) && !start.contains_key(k) {
            let j = choose|j: int| 0 <= j < p.len() && p[j].id == k;
            assert(q[j].id == k);
        }
        if k == rows[i].id {
            assert(q[i].id == k);
        }
    }
    assert forall|j: int|
        0 <= j < q.len() && !start.contains_key(q[j].id) && first_for(q, j) implies after[q[j].id]
        == installed(#[trigger] q[j].stored) by {
        if j < i {
            assert(p[j] == q[j]);
            assert(first_for(p, j)) by {
                assert forall|m: int| 0 <= m < j implies p[m].id != p[j].id by {
                    assert(p[m] == q[m]);
                }
            }
            assert(before.contains_key(q[j].id));
        } else {
            assert(q[j] == rows[i]);
            if before.contains_key(rows[i].id) {
                let m = choose|m: int| 0 <= m < p.len() && p[m].id == rows[i].id;
                assert(q[m] == p[m]);
            }
        }
    }
}

proof fn lemma_save_step<V>(
    m: Map<u128, Register<V>>,
    ids: Seq<u128>,
    i: int,
    prev: Seq<(u128, Register<V>)>,
    out: Seq<(u128, Register<V>)>,
)
    requires
        0 <= i < ids.len(),
        rows_of(m, ids.take(i), prev),
        out == (if m.contains_key(ids[i]) {
            prev.push((ids[i], m[ids[i]]))
        } else {
            prev
        }),
    ensures
        rows_of(m, ids.take(i + 1), out),
{
    let p = ids.take(i);
    let q = ids.take(i + 1);
    assert(q =~= p.push(ids[i]));
    assert forall|n: int| 0 <= n < out.len() implies q.contains(#[trigger] out[n].0) && m.contains_key(
        out[n].0,
    ) && m[out[n].0] == out[n].1 by {
        if n < prev.len() {
            assert(out[n] == prev[n]);
            let j = choose|j: int| 0 <= j < p.len() && p[j] == prev[n].0;
            assert(q[j] == p[j]);
        } else {
            assert(q[i] == ids[i]);
        }
    }
    assert forall|k: u128| q.contains(k) && #[trigger] m.contains_key(k) implies exists|n: int|
        0 <= n < out.len() && out[n].0 == k by {
        let j = choose|j: int| 0 <= j < q.len() && q[j] == k;
        if j < i {
            assert(p[j] == k);
            assert(p.contains(k));
            let n = choose|n: int| 0 <= n < prev.len() && prev[n].0 == k;
            assert(out[n] == prev[n]);
        } else {
            assert(out[prev.len() as int].0 == k);
        }
    }
}

proof fn lemma_first_row<V>(rows: Seq<Row<V>>, k: u128, j: int) -> (f: int)
    requires
        0 <= j < rows.len(),
        rows[j].id == k,
    ensures
        0 <= f <= j,
        rows[f].id == k,
        first_for(rows, f),
    decreases j,
{
    if exists|i: int| 0 <= i < j && rows[i].id == k {
        let i = choose|i: int| 0 <= i < j && rows[i].id == k;
        lemma_first_row(rows, k, i)
    } else {
        j
    }
}

/// Reloading what was saved gives it back: where `out` holds the registers
/// that `saves` handed out for `ids`, and after `free` the rows that the store
/// then holds for them are loaded, every id loaded holds the register it had
/// before.
pub proof fn lemma_reload_round_trip<V>(
    before: Map<u128, Register<V>>,
    ids: Seq<u128>,
    out: Seq<(u128, Register<V>)>,
    rows: Seq<Row<V>>,
    after: Map<u128, Register<V>>,
)
    requires
        rows_of(before, ids, out),
        rows.len() == out.len(),
        forall|j: int| 0 <= j < rows.len() ==> #[trigger] rows[j] == (Row { id: out[j].0, stored: Some(out[j].1) }),
        loaded_from(Map::empty(), rows, after),
    ensures
        forall|k: u128| #[trigger] after.contains_key(k) ==> before.contains_key(k) && after[k] == before[k],
        forall|k: u128| ids.contains(k) && before.contains_key(k) ==> #[trigger] after.contains_key(k),
{
    assert forall|k: u128| #[trigger] after.contains_key(k) implies before.contains_key(k) && after[k] == before[k] by {
        let j = choose|j: int| 0 <= j < rows.len() && rows[j].id == k;
        let f = lemma_first_row(rows, k, j);
        assert(rows[f] == (Row { id: out[f].0, stored: Some(out[f].1) }));
        assert(!Map::<u128, Register<V>>::empty().contains_key(rows[f].id));
        assert(after[rows[f].id] == installed(rows[f].stored));
        assert(ids.contains(out[f].0) && before.contains_key(out[f].0) && before[out[f].0] == out[f].1);
    }
    assert forall|k: u128| ids.contains(k) && before.contains_key(k) implies #[trigger] after.contains_key(k) by {
        let n = choose|n: int| 0 <= n < out.len() && out[n].0 == k;
        assert(rows[n] == (Row { id: out[n].0, stored: Some(out[n].1) }));
    }
}

} // verus!
