//! A table of records keyed by a 64-bit identifier, kept in ascending order of
//! identifier. Inserting an identifier that is present replaces its record in
//! place.
use vstd::prelude::*;

verus! {

pub struct IdTable<V> {
    ids: Vec<i64>,
    rows: Vec<V>,
}

pub open spec fn strictly_ascending(s: Seq<i64>) -> bool {
    forall|i: int, j: int| 0 <= i < j < s.len() ==> s[i] < s[j]
}

impl<V> IdTable<V> {
    /// The identifiers, in ascending order.
    pub closed spec fn ids(&self) -> Seq<i64> {
        self.ids@
    }

    /// The records, in the order of their identifiers.
    pub closed spec fn rows(&self) -> Seq<V> {
        self.rows@
    }

    pub open spec fn wf(&self) -> bool {
        &&& self.ids().len() == self.rows().len()
        &&& strictly_ascending(self.ids())
    }

    /// The record of identifier `id`, where present.
    pub open spec fn lookup(&self, id: i64) -> Option<V> {
        if self.ids().contains(id) {
            Some(self.rows()[self.ids().index_of(id)])
        } else {
            None
        }
    }

    pub open spec fn len_spec(&self) -> nat {
        self.ids().len()
    }

    pub fn new() -> (t: Self)
        ensures
            t.wf(),
            t.ids().len() == 0,
    {
        IdTable { ids: Vec::new(), rows: Vec::new() }
    }

    pub fn len(&self) -> (n: usize)
        requires
            self.wf(),
        ensures
            n == self.ids().len(),
    {
        self.ids.len()
    }

    /// The first position whose identifier is at least `id`.
    fn search(&self, id: i64) -> (p: usize)
        requires
            self.wf(),
        ensures
            p <= self.ids().len(),
            forall|i: int| 0 <= i < p ==> self.ids()[i] < id,
            forall|i: int| p <= i < self.ids().len() ==> self.ids()[i] >= id,
    {
        let n = self.ids.len();
        if n > 0 && self.ids[n - 1] < id {
            return n;
        }
        let mut lo: usize = 0;
        let mut hi: usize = n;
        while lo < hi
            invariant
                self.wf(),
                n == self.ids().len(),
                lo <= hi <= n,
                forall|i: int| 0 <= i < lo ==> self.ids()[i] < id,
                forall|i: int| hi <= i < n ==> self.ids()[i] >= id,
            decreases hi - lo,
        {
            let mid = lo + (hi - lo) / 2;
            if self.ids[mid] < id {
                lo = mid + 1;
            } else {
                hi = mid;
            }
        }
        lo
    }

    pub proof fn lemma_index_of(&self, id: i64, i: int)
        requires
            self.wf(),
            0 <= i < self.ids().len(),
            self.ids()[i] == id,
        ensures
            self.ids().contains(id),
            self.ids().index_of(id) == i,
            self.lookup(id) == Some(self.rows()[i]),
    {
        assert(self.ids()[i] == id);
        let k = self.ids().index_of(id);
        assert(0 <= k < self.ids().len() && self.ids()[k] == id);
        if k < i {
            assert(self.ids()[k] < self.ids()[i]);
        } else if k > i {
            assert(self.ids()[i] < self.ids()[k]);
        }
    }

    /// The position of identifier `id`, where present.
    pub fn position_of(&self, id: i64) -> (r: Option<usize>)
        requires
            self.wf(),
        ensures
            match r {
                Some(p) => p < self.ids().len() && self.ids()[p as int] == id,
                None => !self.ids().contains(id),
            },
            r is Some <==> self.lookup(id) is Some,
            r matches Some(p) ==> self.lookup(id) == Some(self.rows()[p as int]),
    {
        let p = self.search(id);
        if p < self.ids.len() && self.ids[p] == id {
            proof {
                self.lemma_index_of(id, p as int);
            }
            Some(p)
        } else {
            proof {
                if self.ids().contains(id) {
                    let k = self.ids().index_of(id);
                    assert(self.ids()[k] == id);
                    if k >= p {
                        if k > p {
                            assert(self.ids()[p as int] < self.ids()[k]);
                        }
                    }
                }
            }
            None
        }
    }

    /// The record of identifier `id`, where present.
    pub fn get(&self, id: i64) -> (r: Option<&V>)
        requires
            self.wf(),
        ensures
            match r {
                Some(v) => self.lookup(id) == Some(*v),
                None => self.lookup(id) is None,
            },
    {
        match self.position_of(id) {
            Some(p) => Some(&self.rows[p]),
            None => None,
        }
    }

    pub fn id_at(&self, i: usize) -> (id: i64)
        requires
            self.wf(),
            i < self.ids().len(),
        ensures
            id == self.ids()[i as int],
    {
        self.ids[i]
    }

    pub fn row_at(&self, i: usize) -> (v: &V)
        requires
            self.wf(),
            i < self.ids().len(),
        ensures
            *v == self.rows()[i as int],
    {
        &self.rows[i]
    }

    /// The record at position `i`, to be changed in place.
    pub fn row_mut(&mut self, i: usize) -> (v: &mut V)
        requires
            old(self).wf(),
            i < old(self).ids().len(),
        ensures
            *v == old(self).rows()[i as int],
            final(self).ids() == old(self).ids(),
            final(self).rows() == old(self).rows().update(i as int, *final(v)),
            final(self).wf(),
    {
        &mut self.rows[i]
    }

    /// Adds the record `v` under `id`, replacing the record that `id` had.
    pub fn insert(&mut self, id: i64, v: V)
        requires
            old(self).wf(),
        ensures
            final(self).wf(),
            final(self).ids().to_set() == old(self).ids().to_set().insert(id),
            final(self).lookup(id) == Some(v),
            forall|k: i64| k != id ==> #[trigger] final(self).lookup(k) == old(self).lookup(k),
    {
        let p = self.search(id);
        let ghost old_ids = self.ids@;
        let ghost old_rows = self.rows@;
        if p < self.ids.len() && self.ids[p] == id {
            self.rows.set(p, v);
            proof {
                self.lemma_index_of(id, p as int);
                assert(self.ids().to_set() =~= old_ids.to_set().insert(id));
                assert forall|k: i64| k != id implies #[trigger] self.lookup(k) == old(self).lookup(k) by {
                    if old_ids.contains(k) {
                        let j = old_ids.index_of(k);
                        old(self).lemma_index_of(k, j);
                        self.lemma_index_of(k, j);
                    }
                }
            }
        } else {
            self.ids.insert(p, id);
            self.rows.insert(p, v);
            proof {
                assert forall|i: int, j: int| 0 <= i < j < self.ids().len() implies self.ids()[i]
                    < self.ids()[j] by {
                    if j < p {
                    } else if j == p {
                    } else if i < p {
                        assert(self.ids()[j] == old_ids[j - 1]);
                    } else if i == p {
                        assert(self.ids()[j] == old_ids[j - 1]);
                        if p < old_ids.len() {
                            assert(old_ids[p as int] >= id);
                            assert(old_ids[p as int] != id);
                            if j - 1 > p {
                                assert(old_ids[p as int] < old_ids[j - 1]);
                            }
                        }
                    } else {
                        assert(self.ids()[i] == old_ids[i - 1]);
                        assert(self.ids()[j] == old_ids[j - 1]);
                    }
                }
                self.lemma_index_of(id, p as int);
                assert forall|x: i64| self.ids().to_set().contains(x) <==> old_ids.to_set().insert(id).contains(
                    x,
                ) by {
                    if self.ids().contains(x) {
                        let j = self.ids().index_of(x);
                        if j < p {
                            assert(old_ids[j] == x);
                        } else if j > p {
                            assert(old_ids[j - 1] == x);
                        }
                    }
                    if old_ids.contains(x) {
                        let j = old_ids.index_of(x);
                        if j < p {
                            assert(self.ids()[j] == x);
                        } else {
                            assert(self.ids()[j + 1] == x);
                        }
                    }
                }
                assert(self.ids().to_set() =~= old_ids.to_set().insert(id));
                assert forall|k: i64| k != id implies #[trigger] self.lookup(k) == old(self).lookup(k) by {
                    if old_ids.contains(k) {
                        let j = old_ids.index_of(k);
                        old(self).lemma_index_of(k, j);
                        if j < p {
                            self.lemma_index_of(k, j);
                        } else {
                            self.lemma_index_of(k, j + 1);
                        }
                    } else if self.ids().contains(k) {
                        let j = self.ids().index_of(k);
                        if j < p {
                            assert(old_ids[j] == k);
                        } else if j > p {
                            assert(old_ids[j - 1] == k);
                        }
                    }
                }
            }
        }
    }
}

} // verus!
