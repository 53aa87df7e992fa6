//! The encoded values of atoms, keyed by the node that an atom edge points to.
use vstd::prelude::*;

verus! {

/// One node id and the bytes that it carries.
pub struct Payload {
    pub id: u128,
    pub bytes: Vec<u8>,
}

/// A write-once map from node ids to encoded values. Atom nodes are minted
/// fresh for every write, so an id never receives two different payloads;
/// merging keeps the payload that was there first.
pub struct Payloads {
    entries: Vec<Payload>,
    map: Ghost<Map<u128, Seq<u8>>>,
}

impl View for Payloads {
    type V = Map<u128, Seq<u8>>;

    closed spec fn view(&self) -> Map<u128, Seq<u8>> {
        self.map@
    }
}

/// `a` with every id of `b` that `a` lacks.
pub open spec fn merge_payloads(a: Map<u128, Seq<u8>>, b: Map<u128, Seq<u8>>) -> Map<u128, Seq<u8>> {
    Map::new(
        |k: u128| a.contains_key(k) || b.contains_key(k),
        |k: u128|
            if a.contains_key(k) {
                a[k]
            } else {
                b[k]
            },
    )
}

impl Payloads {
    pub closed spec fn wf(&self) -> bool {
        &&& forall|i: int, j: int|
            0 <= i < j < self.entries@.len() ==> self.entries@[i].id != self.entries@[j].id
        &&& forall|i: int|
            0 <= i < self.entries@.len() ==> #[trigger] self.map@.contains_key(self.entries@[i].id)
                && self.map@[self.entries@[i].id] == self.entries@[i].bytes@
        &&& forall|k: u128|
            #[trigger] self.map@.contains_key(k) ==> exists|i: int|
                0 <= i < self.entries@.len() && self.entries@[i].id == k
    }

    pub fn new() -> (r: Self)
        ensures
            r.wf(),
            r@ == Map::<u128, Seq<u8>>::empty(),
    {
        Payloads { entries: Vec::new(), map: Ghost(Map::empty()) }
    }

    fn find(&self, id: u128) -> (r: Option<usize>)
        requires
            self.wf(),
        ensures
            match r {
                Some(i) => i < self.entries@.len() && self.entries@[i as int].id == id,
                None => !self@.contains_key(id),
            },
    {
        let mut i: usize = 0;
        while i < self.entries.len()
            invariant
                self.wf(),
                i <= self.entries@.len(),
                forall|j: int| 0 <= j < i ==> self.entries@[j].id != id,
            decreases self.entries@.len() - i,
        {
            if self.entries[i].id == id {
                return Some(i);
            }
            i += 1;
        }
        None
    }

    /// A copy of the bytes that `id` carries, if any.
    pub fn get(&self, id: u128) -> (r: Option<Vec<u8>>)
        requires
            self.wf(),
        ensures
            match r {
                Some(b) => self@.contains_key(id) && b@ == self@[id],
                None => !self@.contains_key(id),
            },
    {
        match self.find(id) {
            Some(i) => {
                assert(self.map@.contains_key(self.entries@[i as int].id));
                let b = copy_bytes(&self.entries[i].bytes);
                Some(b)
            },
            None => None,
        }
    }

    /// Gives `id` the payload `bytes` unless it has one already.
    pub fn set_if_absent(&mut self, id: u128, bytes: Vec<u8>)
        requires
            old(self).wf(),
        ensures
            final(self).wf(),
            final(self)@ == (if old(self)@.contains_key(id) {
                old(self)@
            } else {
                old(self)@.insert(id, bytes@)
            }),
    {
        if self.find(id).is_none() {
            let ghost n = self.entries@.len();
            let ghost b = bytes@;
            self.entries.push(Payload { id, bytes });
            self.map = Ghost(self.map@.insert(id, b));
            assert(self.entries@[n as int].id == id);
            assert forall|k: u128| #[trigger] self.map@.contains_key(k) implies exists|j: int|
                0 <= j < self.entries@.len() && self.entries@[j].id == k by {
                if k != id {
                    assert(old(self).map@.contains_key(k));
                    let j = choose|j: int|
                        0 <= j < old(self).entries@.len() && old(self).entries@[j].id == k;
                    assert(self.entries@[j] == old(self).entries@[j]);
                    assert(self.entries@[j].id == k);
                } else {
                    assert(self.entries@[n as int].id == k);
                }
            }
        }
    }

    /// Adds every payload of `other` whose id this map lacks.
    pub fn merge(&mut self, other: &Payloads)
        requires
            old(self).wf(),
            other.wf(),
        ensures
            final(self).wf(),
            final(self)@ == merge_payloads(old(self)@, other@),
    {
        let ghost start = self@;
        let mut i: usize = 0;
        while i < other.entries.len()
            invariant
                self.wf(),
                other.wf(),
                i <= other.entries@.len(),
                forall|k: u128| #[trigger]
                    self@.contains_key(k) <==> (start.contains_key(k) || exists|j: int|
                        0 <= j < i && other.entries@[j].id == k),
                forall|k: u128| #[trigger]
                    self@.contains_key(k) ==> self@[k] == (if start.contains_key(k) {
                        start[k]
                    } else {
                        other@[k]
                    }),
            decreases other.entries@.len() - i,
        {
            assert(other.map@.contains_key(other.entries@[i as int].id));
            let id = other.entries[i].id;
            let b = copy_bytes(&other.entries[i].bytes);
            self.set_if_absent(id, b);
            assert forall|k: u128| #[trigger] self@.contains_key(k) <==> (start.contains_key(k)
                || exists|j: int| 0 <= j < i + 1 && other.entries@[j].id == k) by {
                if exists|j: int| 0 <= j < i + 1 && other.entries@[j].id == k {
                    let j = choose|j: int| 0 <= j < i + 1 && other.entries@[j].id == k;
                    if j < i {
                        assert(exists|j: int| 0 <= j < i && other.entries@[j].id == k);
                    }
                }
            }
            i += 1;
        }
        assert forall|k: u128| #[trigger] self@.contains_key(k) <==> merge_payloads(start, other@).contains_key(k) by {
            if other@.contains_key(k) {
                let j = choose|j: int| 0 <= j < other.entries@.len() && other.entries@[j].id == k;
            }
            if exists|j: int| 0 <= j < other.entries@.len() && other.entries@[j].id == k {
                let j = choose|j: int| 0 <= j < other.entries@.len() && other.entries@[j].id == k;
                assert(other.map@.contains_key(other.entries@[j].id));
            }
        }
        assert(self@ =~= merge_payloads(start, other@));
    }
}

/// A fresh vector with the same bytes.
pub fn copy_bytes(b: &Vec<u8>) -> (r: Vec<u8>)
    ensures
        r@ == b@,
{
    let mut r: Vec<u8> = Vec::new();
    let mut i: usize = 0;
    while i < b.len()
        invariant
            i <= b@.len(),
            r@ == b@.subrange(0, i as int),
        decreases b@.len() - i,
    {
        r.push(b[i]);
        i += 1;
        assert(r@ =~= b@.subrange(0, i as int));
    }
    assert(b@.subrange(0, b@.len() as int) =~= b@);
    r
}

} // verus!
