//! A map from ids to registers, kept as a vector of entries with unique ids.
use vstd::prelude::*;
use crate::register::{
    EdgeValue, Register, TieBreak, join_spec, preorder_spec, lemma_option_order, lemma_join_associative,
    lemma_join_commutative, lemma_join_idempotent, lemma_preorder_iff_join,
};

verus! {

/// One id and its register.
#[derive(Clone, Copy)]
pub struct Entry<V> {
    pub id: u128,
    pub reg: Register<V>,
}

/// A map from ids to last-writer-wins registers.
pub struct Table<V> {
    entries: Vec<Entry<V>>,
    map: Ghost<Map<u128, Register<V>>>,
}

/// The register that no write has reached.
pub open spec fn default_reg<V>() -> Register<V> {
    Register { clock: 0, value: None }
}

/// The register held for `id`, or the default one where there is none.
pub open spec fn reg_or_default<V>(m: Map<u128, Register<V>>, id: u128) -> Register<V> {
    if m.contains_key(id) {
        m[id]
    } else {
        default_reg()
    }
}

/// Every id of `a` or `b` joined pointwise.
pub open spec fn join_maps<V: TieBreak>(a: Map<u128, Register<V>>, b: Map<u128, Register<V>>) -> Map<
    u128,
    Register<V>,
> {
    Map::new(
        |k: u128| a.contains_key(k) || b.contains_key(k),
        |k: u128| join_spec(reg_or_default(a, k), reg_or_default(b, k)),
    )
}

/// Every register of `a` is at or below the register of `b` with the same id.
pub open spec fn preorder_maps<V: TieBreak>(a: Map<u128, Register<V>>, b: Map<u128, Register<V>>) -> bool {
    forall|k: u128|
        (a.contains_key(k) || b.contains_key(k)) ==> #[trigger] preorder_spec(
            reg_or_default(a, k),
            reg_or_default(b, k),
        )
}

/// The default register is the identity of join.
pub proof fn lemma_join_default<V: TieBreak>(r: Register<V>)
    ensures
        join_spec(default_reg(), r) == r,
        join_spec(r, default_reg()) == r,
{
    lemma_option_order(r.value, r.value, r.value);
}

/// Two tables hold the same register for every id, an absent id holding the
/// default register.
pub open spec fn same_registers<V>(a: Map<u128, Register<V>>, b: Map<u128, Register<V>>) -> bool {
    forall|k: u128| #[trigger] reg_or_default(a, k) == reg_or_default(b, k)
}

proof fn lemma_reg_of_join<V: TieBreak>(a: Map<u128, Register<V>>, b: Map<u128, Register<V>>, k: u128)
    ensures
        reg_or_default(join_maps(a, b), k) == join_spec(reg_or_default(a, k), reg_or_default(b, k)),
{
    lemma_join_default::<V>(default_reg());
}

/// Pointwise join of tables is associative.
pub proof fn lemma_join_maps_associative<V: TieBreak>(
    a: Map<u128, Register<V>>,
    b: Map<u128, Register<V>>,
    c: Map<u128, Register<V>>,
)
    ensures
        join_maps(a, join_maps(b, c)) == join_maps(join_maps(a, b), c),
{
    assert forall|k: u128| #[trigger] join_maps(a, join_maps(b, c)).contains_key(k) implies join_maps(
        a,
        join_maps(b, c),
    )[k] == join_maps(join_maps(a, b), c)[k] by {
        lemma_reg_of_join(b, c, k);
        lemma_reg_of_join(a, b, k);
        lemma_join_associative(reg_or_default(a, k), reg_or_default(b, k), reg_or_default(c, k));
    }
    assert(join_maps(a, join_maps(b, c)) =~= join_maps(join_maps(a, b), c));
}

/// Pointwise join of tables is commutative.
pub proof fn lemma_join_maps_commutative<V: TieBreak>(a: Map<u128, Register<V>>, b: Map<u128, Register<V>>)
    ensures
        join_maps(a, b) == join_maps(b, a),
{
    assert forall|k: u128| #[trigger] join_maps(a, b).contains_key(k) implies join_maps(a, b)[k] == join_maps(
        b,
        a,
    )[k] by {
        lemma_join_commutative(reg_or_default(a, k), reg_or_default(b, k));
    }
    assert(join_maps(a, b) =~= join_maps(b, a));
}

/// Pointwise join of a table with itself leaves it as it is.
pub proof fn lemma_join_maps_idempotent<V: TieBreak>(a: Map<u128, Register<V>>)
    ensures
        join_maps(a, a) == a,
{
    assert forall|k: u128| #[trigger] a.contains_key(k) implies join_maps(a, a)[k] == a[k] by {
        lemma_join_idempotent(a[k]);
    }
    assert(join_maps(a, a) =~= a);
}

/// The empty table is the identity of pointwise join, on either side.
pub proof fn lemma_join_maps_identity<V: TieBreak>(a: Map<u128, Register<V>>)
    ensures
        join_maps(a, Map::empty()) == a,
        join_maps(Map::empty(), a) == a,
{
    assert forall|k: u128| #[trigger] a.contains_key(k) implies join_maps(a, Map::empty())[k] == a[k]
        && join_maps(Map::empty(), a)[k] == a[k] by {
        lemma_join_default(a[k]);
    }
    assert(join_maps(a, Map::empty()) =~= a);
    assert(join_maps(Map::empty(), a) =~= a);
}

/// `a` is at or below `b` exactly when joining `a` into `b` leaves every
/// register of `b` as it is.
pub proof fn lemma_preorder_maps_iff_join<V: TieBreak>(a: Map<u128, Register<V>>, b: Map<u128, Register<V>>)
    ensures
        preorder_maps(a, b) <==> same_registers(join_maps(a, b), b),
{
    assert forall|k: u128|
        #[trigger] preorder_spec(reg_or_default(a, k), reg_or_default(b, k)) <==> reg_or_default(
            join_maps(a, b),
            k,
        ) == reg_or_default(b, k) by {
        lemma_reg_of_join(a, b, k);
        lemma_preorder_iff_join(reg_or_default(a, k), reg_or_default(b, k));
    }
    if same_registers(join_maps(a, b), b) {
        assert forall|k: u128| (a.contains_key(k) || b.contains_key(k)) implies #[trigger] preorder_spec(
            reg_or_default(a, k),
            reg_or_default(b, k),
        ) by {
            assert(reg_or_default(join_maps(a, b), k) == reg_or_default(b, k));
        }
    }
    if preorder_maps(a, b) {
        assert forall|k: u128| #[trigger] reg_or_default(join_maps(a, b), k) == reg_or_default(b, k) by {
            if a.contains_key(k) || b.contains_key(k) {
                assert(preorder_spec(reg_or_default(a, k), reg_or_default(b, k)));
            } else {
                lemma_reg_of_join(a, b, k);
                lemma_join_default::<V>(default_reg());
            }
        }
    }
}

impl<V: TieBreak> View for Table<V> {
    type V = Map<u128, Register<V>>;

    closed spec fn view(&self) -> Map<u128, Register<V>> {
        self.map@
    }
}

impl<V: TieBreak> Table<V> {
    /// The entries have distinct ids and are exactly the map.
    pub closed spec fn wf(&self) -> bool {
        &&& forall|i: int, j: int|
            0 <= i < j < self.entries@.len() ==> self.entries@[i].id != self.entries@[j].id
        &&& forall|i: int|
            0 <= i < self.entries@.len() ==> #[trigger] self.map@.contains_key(self.entries@[i].id)
                && self.map@[self.entries@[i].id] == self.entries@[i].reg
        &&& forall|k: u128|
            #[trigger] self.map@.contains_key(k) ==> exists|i: int|
                0 <= i < self.entries@.len() && self.entries@[i].id == k
    }

    pub fn new() -> (r: Self)
        ensures
            r.wf(),
            r@ == Map::<u128, Register<V>>::empty(),
    {
        Table { entries: Vec::new(), map: Ghost(Map::empty()) }
    }

    fn find(&self, id: u128) -> (r: Option<usize>)
        requires
            self.wf(),
        ensures
            match r {
                Some(i) => i < self.entries@.len() && self.entries@[i as int].id == id,
                None => !self@.contains_key(id),
            },
    {
        let mut i: usize = 0;
        while i < self.entries.len()
            invariant
                self.wf(),
                i <= self.entries@.len(),
                forall|j: int| 0 <= j < i ==> self.entries@[j].id != id,
            decreases self.entries@.len() - i,
        {
            if self.entries[i].id == id {
                return Some(i);
            }
            i += 1;
        }
        None
    }

    /// The register held for `id`, if any.
    pub fn get(&self, id: u128) -> (r: Option<Register<V>>)
        requires
            self.wf(),
        ensures
            r == (if self@.contains_key(id) {
                Some(self@[id])
            } else {
                None
            }),
    {
        match self.find(id) {
            Some(i) => Some(self.entries[i].reg),
            None => None,
        }
    }

    /// Whether a register is held for `id`.
    pub fn contains(&self, id: u128) -> (r: bool)
        requires
            self.wf(),
        ensures
            r == self@.contains_key(id),
    {
        self.find(id).is_some()
    }

    /// Holds `reg` for `id`, in place of what was there.
    pub fn put(&mut self, id: u128, reg: Register<V>)
        requires
            old(self).wf(),
        ensures
            final(self).wf(),
            final(self)@ == old(self)@.insert(id, reg),
    {
        match self.find(id) {
            Some(i) => {
                self.entries.set(i, Entry { id, reg });
                self.map = Ghost(self.map@.insert(id, reg));
                assert forall|k: u128| #[trigger] self.map@.contains_key(k) implies exists|j: int|
                    0 <= j < self.entries@.len() && self.entries@[j].id == k by {
                    assert(old(self).map@.contains_key(k));
                    let j = choose|j: int|
                        0 <= j < old(self).entries@.len() && old(self).entries@[j].id == k;
                    assert(self.entries@[j].id == k);
                }
            },
            None => {
                let ghost n = self.entries@.len();
                self.entries.push(Entry { id, reg });
                self.map = Ghost(self.map@.insert(id, reg));
                assert(self.entries@[n as int].id == id);
                assert forall|k: u128| #[trigger] self.map@.contains_key(k) implies exists|j: int|
                    0 <= j < self.entries@.len() && self.entries@[j].id == k by {
                    if k != id {
                        assert(old(self).map@.contains_key(k));
                        let j = choose|j: int|
                            0 <= j < old(self).entries@.len() && old(self).entries@[j].id == k;
                        assert(self.entries@[j] == old(self).entries@[j]);
                        assert(self.entries@[j].id == k);
                    } else {
                        assert(self.entries@[n as int].id == k);
                    }
                }
            },
        }
    }

    /// Joins `reg` into the register held for `id` (the default one where
    /// there is none).
    pub fn join_at(&mut self, id: u128, reg: Register<V>)
        requires
            old(self).wf(),
        ensures
            final(self).wf(),
            final(self)@ == old(self)@.insert(id, join_spec(reg_or_default(old(self)@, id), reg)),
    {
        let cur = match self.get(id) {
            Some(r) => r,
            None => Register::new(),
        };
        let joined = cur.join(&reg);
        self.put(id, joined);
    }

    /// Drops the register held for `id`.
    pub fn remove(&mut self, id: u128)
        requires
            old(self).wf(),
        ensures
            final(self).wf(),
            final(self)@ == old(self)@.remove(id),
    {
        match self.find(id) {
            Some(i) => {
                let ghost before = self.entries@;
                self.entries.remove(i);
                self.map = Ghost(self.map@.remove(id));
                assert forall|j: int| 0 <= j < self.entries@.len() implies #[trigger] self.map@.contains_key(
                    self.entries@[j].id,
                ) && self.map@[self.entries@[j].id] == self.entries@[j].reg by {
                    if j < i {
                        assert(self.entries@[j] == before[j]);
                    } else {
                        assert(self.entries@[j] == before[j + 1]);
                    }
                }
                assert forall|k: u128| #[trigger] self.map@.contains_key(k) implies exists|j: int|
                    0 <= j < self.entries@.len() && self.entries@[j].id == k by {
                    assert(old(self).map@.contains_key(k));
                    let j = choose|j: int| 0 <= j < before.len() && before[j].id == k;
                    if j < i {
                        assert(self.entries@[j].id == k);
                    } else {
                        assert(self.entries@[j - 1].id == k);
                    }
                }
            },
            None => {
                assert(self.map@.remove(id) =~= self.map@);
            },
        }
    }

    /// The ids that hold a register, each once.
    pub fn ids(&self) -> (r: Vec<u128>)
        requires
            self.wf(),
        ensures
            r@.no_duplicates(),
            forall|k: u128| r@.contains(k) <==> self@.contains_key(k),
    {
        let mut r: Vec<u128> = Vec::new();
        let mut i: usize = 0;
        while i < self.entries.len()
            invariant
                self.wf(),
                i <= self.entries@.len(),
                r@.len() == i,
                forall|j: int| 0 <= j < i ==> r@[j] == self.entries@[j].id,
            decreases self.entries@.len() - i,
        {
            r.push(self.entries[i].id);
            i += 1;
        }
        assert forall|k: u128| r@.contains(k) <==> self@.contains_key(k) by {
            if self@.contains_key(k) {
                let j = choose|j: int| 0 <= j < self.entries@.len() && self.entries@[j].id == k;
                assert(r@[j] == k);
            }
        }
        r
    }

    spec fn seen(&self, i: int, k: u128) -> bool {
        exists|j: int| 0 <= j < i && self.entries@[j].id == k
    }

    /// Joins every register of `other` into the register of this table with
    /// the same id.
    pub fn join_all(&mut self, other: &Table<V>)
        requires
            old(self).wf(),
            other.wf(),
        ensures
            final(self).wf(),
            final(self)@ == join_maps(old(self)@, other@),
    {
        let ghost start = self@;
        let mut i: usize = 0;
        while i < other.entries.len()
            invariant
                self.wf(),
                other.wf(),
                i <= other.entries@.len(),
                forall|k: u128| #[trigger]
                    self@.contains_key(k) <==> (start.contains_key(k) || other.seen(i as int, k)),
                forall|k: u128| #[trigger]
                    self@.contains_key(k) ==> self@[k] == (if other.seen(i as int, k) {
                        join_spec(reg_or_default(start, k), other@[k])
                    } else {
                        start[k]
                    }),
            decreases other.entries@.len() - i,
        {
            let e = other.entries[i];
            let ghost prev = self@;
            assert(!other.seen(i as int, e.id));
            assert(other.map@.contains_key(other.entries@[i as int].id));
            assert(other@[e.id] == e.reg);
            assert(reg_or_default(prev, e.id) == reg_or_default(start, e.id));
            self.join_at(e.id, e.reg);
            assert forall|k: u128| #[trigger] other.seen(i + 1, k) <==> (other.seen(i as int, k) || k
                == e.id) by {
                if other.seen(i + 1, k) && k != e.id {
                    let j = choose|j: int| 0 <= j < i + 1 && other.entries@[j].id == k;
                    assert(j < i);
                }
                if k == e.id {
                    assert(other.entries@[i as int].id == k);
                }
            }
            i += 1;
        }
        assert forall|k: u128| #[trigger] other.seen(other.entries@.len() as int, k) <==> other@.contains_key(k) by {
            if other@.contains_key(k) {
                let j = choose|j: int| 0 <= j < other.entries@.len() && other.entries@[j].id == k;
            }
        }
        assert forall|k: u128| self@.contains_key(k) implies #[trigger] self@[k] == join_maps(start, other@)[k] by {
            lemma_join_default(reg_or_default(start, k));
            lemma_join_default(reg_or_default(other@, k));
        }
        assert(self@ =~= join_maps(start, other@));
    }

    /// Whether every register of this table is at or below the register of
    /// `other` with the same id, over the ids of both.
    pub fn preorder_all(&self, other: &Table<V>) -> (r: bool)
        requires
            self.wf(),
            other.wf(),
        ensures
            r == preorder_maps(self@, other@),
    {
        let mut i: usize = 0;
        while i < self.entries.len()
            invariant
                self.wf(),
                other.wf(),
                i <= self.entries@.len(),
                forall|j: int| 0 <= j < i ==> #[trigger] preorder_spec(
                    reg_or_default(self@, self.entries@[j].id),
                    reg_or_default(other@, self.entries@[j].id),
                ),
            decreases self.entries@.len() - i,
        {
            let e = self.entries[i];
            let theirs = match other.get(e.id) {
                Some(r) => r,
                None => Register::new(),
            };
            if !e.reg.preorder(&theirs) {
                assert(self.map@.contains_key(self.entries@[i as int].id));
                assert(!preorder_spec(reg_or_default(self@, e.id), reg_or_default(other@, e.id)));
                return false;
            }
            i += 1;
        }
        let mut i: usize = 0;
        while i < other.entries.len()
            invariant
                self.wf(),
                other.wf(),
                i <= other.entries@.len(),
                forall|j: int| 0 <= j < self.entries@.len() ==> #[trigger] preorder_spec(
                    reg_or_default(self@, self.entries@[j].id),
                    reg_or_default(other@, self.entries@[j].id),
                ),
                forall|j: int| 0 <= j < i ==> #[trigger] preorder_spec(
                    reg_or_default(self@, other.entries@[j].id),
                    reg_or_default(other@, other.entries@[j].id),
                ),
            decreases other.entries@.len() - i,
        {
            let e = other.entries[i];
            let mine = match self.get(e.id) {
                Some(r) => r,
                None => Register::new(),
            };
            if !mine.preorder(&e.reg) {
                assert(other.map@.contains_key(other.entries@[i as int].id));
                assert(!preorder_spec(reg_or_default(self@, e.id), reg_or_default(other@, e.id)));
                return false;
            }
            i += 1;
        }
        assert forall|k: u128| (self@.contains_key(k) || other@.contains_key(k)) implies #[trigger] preorder_spec(
            reg_or_default(self@, k),
            reg_or_default(other@, k),
        ) by {
            if self@.contains_key(k) {
                let j = choose|j: int| 0 <= j < self.entries@.len() && self.entries@[j].id == k;
                assert(preorder_spec(
                    reg_or_default(self@, self.entries@[j].id),
                    reg_or_default(other@, self.entries@[j].id),
                ));
            } else {
                let j = choose|j: int| 0 <= j < other.entries@.len() && other.entries@[j].id == k;
                assert(preorder_spec(
                    reg_or_default(self@, other.entries@[j].id),
                    reg_or_default(other@, other.entries@[j].id),
                ));
            }
        }
        true
    }
}

impl Table<u64> {
    /// The ids whose register holds `label`.
    pub fn ids_with_value(&self, label: u64) -> (r: Vec<u128>)
        requires
            self.wf(),
        ensures
            r@.no_duplicates(),
            forall|k: u128| r@.contains(k) <==> (self@.contains_key(k) && self@[k].value == Some(label)),
    {
        let mut r: Vec<u128> = Vec::new();
        let mut i: usize = 0;
        while i < self.entries.len()
            invariant
                self.wf(),
                i <= self.entries@.len(),
                r@.no_duplicates(),
                forall|k: u128|
                    r@.contains(k) <==> exists|j: int|
                        0 <= j < i && self.entries@[j].id == k && self.entries@[j].reg.value == Some(label),
            decreases self.entries@.len() - i,
        {
            let e = self.entries[i];
            let hit = match e.reg.value {
                Some(v) => v == label,
                None => false,
            };
            let ghost prev = r@;
            if hit {
                assert(!r@.contains(e.id));
                r.push(e.id);
            }
            assert forall|k: u128|
                r@.contains(k) <==> exists|j: int|
                    0 <= j < i + 1 && self.entries@[j].id == k && self.entries@[j].reg.value == Some(label) by {
                if r@.contains(k) {
                    if hit && k == e.id {
                        assert(self.entries@[i as int].id == k);
                    } else {
                        let m = choose|m: int| 0 <= m < r@.len() && r@[m] == k;
                        assert(prev[m] == k);
                        assert(prev.contains(k));
                    }
                }
                if exists|j: int| 0 <= j < i + 1 && self.entries@[j].id == k && self.entries@[j].reg.value == Some(label) {
                    let j = choose|j: int|
                        0 <= j < i + 1 && self.entries@[j].id == k && self.entries@[j].reg.value == Some(label);
                    if j == i {
                        assert(r@[r@.len() - 1] == k);
                    } else {
                        assert(prev.contains(k));
                        let m = choose|m: int| 0 <= m < prev.len() && prev[m] == k;
                        assert(r@[m] == k);
                    }
                }
            }
            i += 1;
        }
        assert forall|k: u128| r@.contains(k) <==> (self@.contains_key(k) && self@[k].value == Some(label)) by {
            if self@.contains_key(k) {
                let j = choose|j: int| 0 <= j < self.entries@.len() && self.entries@[j].id == k;
                assert(self.map@.contains_key(self.entries@[j].id));
            }
            if r@.contains(k) {
                let j = choose|j: int|
                    0 <= j < self.entries@.len() && self.entries@[j].id == k && self.entries@[j].reg.value == Some(label);
                assert(self.map@.contains_key(self.entries@[j].id));
            }
        }
        r
    }
}

impl Table<EdgeValue> {
    /// The ids whose register holds an edge from `src`.
    pub fn ids_with_src(&self, src: u128) -> (r: Vec<u128>)
        requires
            self.wf(),
        ensures
            r@.no_duplicates(),
            forall|k: u128| r@.contains(k) <==> (self@.contains_key(k) && (self@[k].value matches Some(v) && v.src == src)),
    {
        let mut r: Vec<u128> = Vec::new();
        let mut i: usize = 0;
        while i < self.entries.len()
            invariant
                self.wf(),
                i <= self.entries@.len(),
                r@.no_duplicates(),
                forall|k: u128|
                    r@.contains(k) <==> exists|j: int|
                        0 <= j < i && self.entries@[j].id == k && (self.entries@[j].reg.value matches Some(v) && v.src == src),
            decreases self.entries@.len() - i,
        {
            let e = self.entries[i];
            let hit = match e.reg.value {
                Some(v) => v.src == src,
                None => false,
            };
            let ghost prev = r@;
            if hit {
                assert(!r@.contains(e.id));
                r.push(e.id);
            }
            assert forall|k: u128|
                r@.contains(k) <==> exists|j: int|
                    0 <= j < i + 1 && self.entries@[j].id == k && (self.entries@[j].reg.value matches Some(v) && v.src == src) by {
                if r@.contains(k) {
                    if hit && k == e.id {
                        assert(self.entries@[i as int].id == k);
                    } else {
                        let m = choose|m: int| 0 <= m < r@.len() && r@[m] == k;
                        assert(prev[m] == k);
                        assert(prev.contains(k));
                    }
                }
                if exists|j: int| 0 <= j < i + 1 && self.entries@[j].id == k && (self.entries@[j].reg.value matches Some(v) && v.src == src) {
                    let j = choose|j: int|
                        0 <= j < i + 1 && self.entries@[j].id == k && (self.entries@[j].reg.value matches Some(v) && v.src == src);
                    if j == i {
                        assert(r@[r@.len() - 1] == k);
                    } else {
                        assert(prev.contains(k));
                        let m = choose|m: int| 0 <= m < prev.len() && prev[m] == k;
                        assert(r@[m] == k);
                    }
                }
            }
            i += 1;
        }
        assert forall|k: u128| r@.contains(k) <==> (self@.contains_key(k) && (self@[k].value matches Some(v) && v.src == src)) by {
            if self@.contains_key(k) {
                let j = choose|j: int| 0 <= j < self.entries@.len() && self.entries@[j].id == k;
                assert(self.map@.contains_key(self.entries@[j].id));
            }
            if r@.contains(k) {
                let j = choose|j: int|
                    0 <= j < self.entries@.len() && self.entries@[j].id == k && (self.entries@[j].reg.value matches Some(v) && v.src == src);
                assert(self.map@.contains_key(self.entries@[j].id));
            }
        }
        r
    }
}

impl Table<EdgeValue> {
    /// The ids whose register holds an edge with `label` into `dst`.
    pub fn ids_with_label_dst(&self, label: u64, dst: u128) -> (r: Vec<u128>)
        requires
            self.wf(),
        ensures
            r@.no_duplicates(),
            forall|k: u128| r@.contains(k) <==> (self@.contains_key(k) && (self@[k].value matches Some(v) && v.label == label && v.dst == dst)),
    {
        let mut r: Vec<u128> = Vec::new();
        let mut i: usize = 0;
        while i < self.entries.len()
            invariant
                self.wf(),
                i <= self.entries@.len(),
                r@.no_duplicates(),
                forall|k: u128|
                    r@.contains(k) <==> exists|j: int|
                        0 <= j < i && self.entries@[j].id == k && (self.entries@[j].reg.value matches Some(v) && v.label == label && v.dst == dst),
            decreases self.entries@.len() - i,
        {
            let e = self.entries[i];
            let hit = match e.reg.value {
                Some(v) => v.label == label && v.dst == dst,
                None => false,
            };
            let ghost prev = r@;
            if hit {
                assert(!r@.contains(e.id));
                r.push(e.id);
            }
            assert forall|k: u128|
                r@.contains(k) <==> exists|j: int|
                    0 <= j < i + 1 && self.entries@[j].id == k && (self.entries@[j].reg.value matches Some(v) && v.label == label && v.dst == dst) by {
                if r@.contains(k) {
                    if hit && k == e.id {
                        assert(self.entries@[i as int].id == k);
                    } else {
                        let m = choose|m: int| 0 <= m < r@.len() && r@[m] == k;
                        assert(prev[m] == k);
                        assert(prev.contains(k));
                    }
                }
                if exists|j: int| 0 <= j < i + 1 && self.entries@[j].id == k && (self.entries@[j].reg.value matches Some(v) && v.label == label && v.dst == dst) {
                    let j = choose|j: int|
                        0 <= j < i + 1 && self.entries@[j].id == k && (self.entries@[j].reg.value matches Some(v) && v.label == label && v.dst == dst);
                    if j == i {
                        assert(r@[r@.len() - 1] == k);
                    } else {
                        assert(prev.contains(k));
                        let m = choose|m: int| 0 <= m < prev.len() && prev[m] == k;
                        assert(r@[m] == k);
                    }
                }
            }
            i += 1;
        }
        assert forall|k: u128| r@.contains(k) <==> (self@.contains_key(k) && (self@[k].value matches Some(v) && v.label == label && v.dst == dst)) by {
            if self@.contains_key(k) {
                let j = choose|j: int| 0 <= j < self.entries@.len() && self.entries@[j].id == k;
                assert(self.map@.contains_key(self.entries@[j].id));
            }
            if r@.contains(k) {
                let j = choose|j: int|
                    0 <= j < self.entries@.len() && self.entries@[j].id == k && (self.entries@[j].reg.value matches Some(v) && v.label == label && v.dst == dst);
                assert(self.map@.contains_key(self.entries@[j].id));
            }
        }
        r
    }
}

} // verus!
