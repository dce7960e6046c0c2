use crate::address::Address;
use vstd::prelude::*;

verus! {

/// An outgoing query awaiting its response: where it went, until when an
/// answer is awaited, and what to resume with the answer or the timeout.
pub struct Transaction<C> {
    pub id: u32,
    pub destination: Address,
    pub deadline: u64,
    pub continuation: C,
}

/// The in-flight queries, keyed by transaction id. Ids are handed out
/// round-robin from a cursor, skipping those still pending, so an id is
/// reused only once its transaction has ended.
pub struct TransactionTable<C> {
    pending: Vec<Transaction<C>>,
    next_id: u32,
}

/// Whether a transaction's deadline has passed at time `now`.
pub open spec fn overdue<C>(t: Transaction<C>, now: u64) -> bool {
    now > t.deadline
}

impl<C> TransactionTable<C> {
    /// The pending transactions, oldest first.
    pub closed spec fn spec_pending(&self) -> Seq<Transaction<C>> {
        self.pending@
    }

    /// Where the search for the next free id starts.
    pub closed spec fn spec_next_id(&self) -> u32 {
        self.next_id
    }

    /// Pending ids are distinct.
    pub closed spec fn wf(&self) -> bool {
        forall|i: int, j: int|
            0 <= i < self.pending@.len() && 0 <= j < self.pending@.len() && #[trigger] self.pending@[i].id
                == #[trigger] self.pending@[j].id ==> i == j
    }

    /// Whether a transaction with this id is pending.
    pub open spec fn has(&self, id: u32) -> bool {
        exists|i: int| 0 <= i < self.spec_pending().len() && self.spec_pending()[i].id == id
    }

    /// What `begin` does.
    pub open spec fn begin_post(
        old: &Self,
        new: &Self,
        destination: Address,
        continuation: C,
        deadline: u64,
        r: Option<u32>,
    ) -> bool {
        &&& (r is None) == (forall|id: u32| #[trigger] old.has(id))
        &&& r is None ==> new.spec_pending() == old.spec_pending() && new.spec_next_id()
            == old.spec_next_id()
        &&& r matches Some(id) ==> {
            &&& !old.has(id)
            &&& new.spec_next_id() == (if id == u32::MAX {
                0
            } else {
                (id + 1) as u32
            })
            &&& new.spec_pending() == old.spec_pending().push(
                Transaction { id, destination, deadline, continuation },
            )
        }
    }

    /// What `complete` does.
    pub open spec fn complete_post(old: &Self, new: &Self, id: u32, r: Option<Transaction<C>>) -> bool {
        &&& (r is Some) == old.has(id)
        &&& new.spec_next_id() == old.spec_next_id()
        &&& r is None ==> new.spec_pending() == old.spec_pending()
        &&& forall|i: int|
            0 <= i < old.spec_pending().len() && #[trigger] old.spec_pending()[i].id == id ==> r
                == Some(old.spec_pending()[i]) && new.spec_pending() == old.spec_pending().remove(i)
    }

    /// What `expire_overdue` does.
    pub open spec fn expire_post(old: &Self, new: &Self, now: u64, r: Seq<Transaction<C>>) -> bool {
        &&& r == old.spec_pending().filter(|t: Transaction<C>| overdue(t, now))
        &&& new.spec_pending() == old.spec_pending().filter(|t: Transaction<C>| !overdue(t, now))
        &&& new.spec_next_id() == old.spec_next_id()
    }

    /// An empty table.
    pub fn new() -> (r: Self)
        ensures
            r.wf(),
            r.spec_pending().len() == 0,
            r.spec_next_id() == 0,
    {
        TransactionTable { pending: Vec::new(), next_id: 0 }
    }

    /// Number of pending transactions.
    pub fn len(&self) -> (r: usize)
        ensures
            r == self.spec_pending().len(),
    {
        self.pending.len()
    }

    /// Whether a transaction with this id is pending.
    pub fn is_pending(&self, id: u32) -> (r: bool)
        ensures
            r == self.has(id),
    {
        let mut i: usize = 0;
        while i < self.pending.len()
            invariant
                i <= self.pending@.len(),
                forall|j: int| 0 <= j < i ==> #[trigger] self.pending@[j].id != id,
            decreases self.pending@.len() - i,
        {
            if self.pending[i].id == id {
                assert(self.spec_pending()[i as int].id == id);
                return true;
            }
            i = i + 1;
        }
        false
    }

    /// Records a query sent to `destination`, answered by `deadline`, and
    /// returns the id to put in its envelope: the first id from the cursor
    /// on, wrapping around, that is not pending. `None` only when all 2^32
    /// ids are pending.
    pub fn begin(&mut self, destination: Address, continuation: C, deadline: u64) -> (r: Option<u32>)
        requires
            old(self).wf(),
        ensures
            final(self).wf(),
            Self::begin_post(old(self), final(self), destination, continuation, deadline, r),
            old(self).spec_pending().len() < 0x1_0000_0000 ==> r is Some,
    {
        let ghost start = self.next_id as int;
        let mut tries: u64 = 0;
        let mut c: u32 = self.next_id;
        while tries < 0x1_0000_0000
            invariant
                *self == *old(self),
                old(self).wf(),
                start == self.next_id as int,
                tries <= 0x1_0000_0000,
                c as int == (start + tries) % 0x1_0000_0000,
                forall|t: int| 0 <= t < tries ==> #[trigger] old(self).has(((start + t) % 0x1_0000_0000) as u32),
            decreases 0x1_0000_0000 - tries,
        {
            if !self.is_pending(c) {
                assert(!old(self).has(c));
                let ghost before = self.pending@;
                self.pending.push(Transaction { id: c, destination, deadline, continuation });
                self.next_id = if c == u32::MAX {
                    0
                } else {
                    c + 1
                };
                proof {
                    assert forall|i: int, j: int|
                        0 <= i < self.pending@.len() && 0 <= j < self.pending@.len()
                            && #[trigger] self.pending@[i].id == #[trigger] self.pending@[j].id implies i
                            == j by {
                        let n = before.len() as int;
                        assert(before == old(self).pending@);
                        assert(self.pending@[n].id == c);
                        if i < n {
                            assert(self.pending@[i] == before[i]);
                        }
                        if j < n {
                            assert(self.pending@[j] == before[j]);
                        }
                        if i < n && j < n {
                            assert(old(self).pending@[i].id == old(self).pending@[j].id);
                        } else if i < n {
                            assert(old(self).spec_pending()[i].id == c);
                        } else if j < n {
                            assert(old(self).spec_pending()[j].id == c);
                        }
                    }
                }
                return Some(c);
            }
            proof {
                assert(((start + tries) % 0x1_0000_0000) as u32 == c);
            }
            c = if c == u32::MAX {
                0
            } else {
                c + 1
            };
            tries = tries + 1;
            proof {
                assert(c as int == (start + tries) % 0x1_0000_0000) by {
                    assert(0 <= start < 0x1_0000_0000);
                }
            }
        }
        proof {
            assert forall|id: u32| #[trigger] old(self).has(id) by {
                let t = if id as int >= start {
                    id as int - start
                } else {
                    id as int + 0x1_0000_0000 - start
                };
                assert(0 <= t < 0x1_0000_0000);
                assert((start + t) % 0x1_0000_0000 == id as int);
                assert(old(self).has(((start + t) % 0x1_0000_0000) as u32));
            }
            if old(self).spec_pending().len() < 0x1_0000_0000 {
                Self::lemma_some_id_free(old(self));
            }
        }
        None
    }

    /// With fewer than 2^32 pending transactions, some id is free.
    pub proof fn lemma_some_id_free(t: &Self)
        requires
            t.spec_pending().len() < 0x1_0000_0000,
        ensures
            exists|id: u32| !t.has(id),
    {
        if forall|id: u32| #[trigger] t.has(id) {
        let ids = t.pending@.map_values(|x: Transaction<C>| x.id as int);
        ids.lemma_cardinality_of_set();
        let all = vstd::set_lib::set_int_range(0, 0x1_0000_0000);
        vstd::set_lib::lemma_int_range(0, 0x1_0000_0000);
        assert forall|v: int| all.contains(v) implies ids.to_set().contains(v) by {
            let id = v as u32;
            assert(t.has(id));
            let i = choose|i: int| 0 <= i < t.spec_pending().len() && t.spec_pending()[i].id == id;
            assert(ids[i] == v);
        }
            vstd::set_lib::lemma_len_subset(all, ids.to_set());
        }
    }

    /// Removes and returns the pending transaction with this id, whose
    /// continuation the caller then resumes with the response; `None` for an
    /// id that is unknown, already completed or expired.
    pub fn complete(&mut self, id: u32) -> (r: Option<Transaction<C>>)
        requires
            old(self).wf(),
        ensures
            final(self).wf(),
            Self::complete_post(old(self), final(self), id, r),
    {
        let mut i: usize = 0;
        while i < self.pending.len()
            invariant
                old(self).wf(),
                self.pending@ == old(self).pending@,
                self.next_id == old(self).next_id,
                i <= self.pending@.len(),
                forall|j: int| 0 <= j < i ==> #[trigger] self.pending@[j].id != id,
            decreases self.pending@.len() - i,
        {
            if self.pending[i].id == id {
                let ghost before = self.pending@;
                let t = self.pending.remove(i);
                proof {
                    assert(before[i as int].id == id);
                    assert(old(self).spec_pending()[i as int].id == id);
                    assert(t == before[i as int]);
                    assert(self.pending@ == before.remove(i as int));
                    assert forall|j: int|
                        0 <= j < before.len() && #[trigger] before[j].id == id implies j == i by {}
                    assert forall|a: int, b: int|
                        0 <= a < self.pending@.len() && 0 <= b < self.pending@.len()
                            && #[trigger] self.pending@[a].id == #[trigger] self.pending@[b].id
                            implies a == b by {
                        let a2 = if a < i { a } else { a + 1 };
                        let b2 = if b < i { b } else { b + 1 };
                        assert(self.pending@[a] == before[a2]);
                        assert(self.pending@[b] == before[b2]);
                    }
                }
                return Some(t);
            }
            i = i + 1;
        }
        None
    }

    /// Removes and returns, oldest first, every pending transaction whose
    /// deadline has passed at time `now`; the caller resumes each with a
    /// timeout.
    pub fn expire_overdue(&mut self, now: u64) -> (r: Vec<Transaction<C>>)
        requires
            old(self).wf(),
        ensures
            final(self).wf(),
            Self::expire_post(old(self), final(self), now, r@),
    {
        let ghost all = self.pending@;
        let ghost p = |t: Transaction<C>| overdue(t, now);
        let ghost q = |t: Transaction<C>| !overdue(t, now);
        let mut kept: Vec<Transaction<C>> = Vec::new();
        let mut expired: Vec<Transaction<C>> = Vec::new();
        let ghost n = all.len();
        while self.pending.len() > 0
            invariant
                p == (|t: Transaction<C>| overdue(t, now)),
                q == (|t: Transaction<C>| !overdue(t, now)),
                n == all.len(),
                self.pending@.len() <= n,
                self.pending@ == all.skip(n - self.pending@.len()),
                self.next_id == old(self).next_id,
                all == old(self).pending@,
                old(self).wf(),
                expired@ == all.take(n - self.pending@.len()).filter(p),
                kept@ == all.take(n - self.pending@.len()).filter(q),
                forall|i: int|
                    0 <= i < kept@.len() ==> exists|j: int|
                        0 <= j < n - self.pending@.len() && #[trigger] kept@[i] == all[j],
                forall|a: int, b: int|
                    0 <= a < kept@.len() && 0 <= b < kept@.len() && #[trigger] kept@[a].id
                        == #[trigger] kept@[b].id ==> a == b,
            decreases self.pending@.len(),
        {
            let ghost m = n - self.pending@.len();
            let t = self.pending.remove(0);
            proof {
                assert(t == all[m]);
                assert(self.pending@ =~= all.skip(m + 1));
                let tk = all.take(m + 1);
                reveal(Seq::filter);
                assert(tk.drop_last() =~= all.take(m));
                assert(tk.last() == t);
                assert forall|i: int| 0 <= i < kept@.len() implies #[trigger] kept@[i].id != t.id by {
                    let j = choose|j: int| 0 <= j < m && kept@[i] == all[j];
                    assert(all[j].id != all[m].id);
                }
            }
            let ghost before = kept@;
            if now > t.deadline {
                expired.push(t);
            } else {
                kept.push(t);
                proof {
                    assert forall|i: int| 0 <= i < kept@.len() implies exists|j: int|
                        0 <= j < m + 1 && #[trigger] kept@[i] == all[j] by {
                        if i < before.len() {
                            assert(kept@[i] == before[i]);
                        } else {
                            assert(kept@[i] == all[m]);
                        }
                    }
                    assert forall|a: int, b: int|
                        0 <= a < kept@.len() && 0 <= b < kept@.len() && #[trigger] kept@[a].id
                            == #[trigger] kept@[b].id implies a == b by {
                        if a < before.len() && b < before.len() {
                            assert(kept@[a] == before[a] && kept@[b] == before[b]);
                        } else if a < before.len() {
                            assert(kept@[a] == before[a]);
                        } else if b < before.len() {
                            assert(kept@[b] == before[b]);
                        }
                    }
                }
            }
        }
        proof {
            assert(all.take(n as int) =~= all);
        }
        self.pending = kept;
        expired
    }

    /// A transaction just begun is handed back, continuation and all, by
    /// `complete` with its id, which leaves the table as it was before.
    pub proof fn lemma_begin_then_complete(
        t0: &Self,
        t1: &Self,
        t2: &Self,
        destination: Address,
        continuation: C,
        deadline: u64,
        id: u32,
        r: Option<Transaction<C>>,
    )
        requires
            t0.wf(),
            Self::begin_post(t0, t1, destination, continuation, deadline, Some(id)),
            Self::complete_post(t1, t2, id, r),
        ensures
            r == Some(Transaction { id, destination, deadline, continuation }),
            t2.spec_pending() == t0.spec_pending(),
    {
        let n = t0.spec_pending().len() as int;
        assert(t1.spec_pending()[n].id == id);
        assert(t2.spec_pending() =~= t0.spec_pending());
    }

    /// After `complete`, no transaction with its id is pending.
    pub proof fn lemma_complete_removes(t1: &Self, t2: &Self, id: u32, r: Option<Transaction<C>>)
        requires
            t1.wf(),
            Self::complete_post(t1, t2, id, r),
        ensures
            !t2.has(id),
    {
        if r is Some {
            let p = t1.spec_pending();
            let i = choose|i: int| 0 <= i < p.len() && p[i].id == id;
            assert(p[i].id == id);
            assert(t2.spec_pending() == p.remove(i));
            if t2.has(id) {
                let m = choose|m: int| 0 <= m < t2.spec_pending().len() && t2.spec_pending()[m].id == id;
                let m2 = if m < i { m } else { m + 1 };
                assert(t2.spec_pending()[m] == p[m2]);
                assert(t1.pending@[m2].id == t1.pending@[i].id);
            }
        }
    }

    /// After `complete` has handed back the transaction with an id, a second
    /// `complete` with that id finds nothing.
    pub proof fn lemma_complete_once(t1: &Self, t2: &Self, t3: &Self, id: u32, r1: Option<Transaction<C>>, r2: Option<Transaction<C>>)
        requires
            t1.wf(),
            Self::complete_post(t1, t2, id, r1),
            Self::complete_post(t2, t3, id, r2),
            r1 is Some,
        ensures
            r2 is None,
    {
        Self::lemma_complete_removes(t1, t2, id, r1);
    }

    /// `expire_overdue` at a time past a pending transaction's deadline hands
    /// it back exactly once, and a late `complete` with its id then finds
    /// nothing.
    pub proof fn lemma_expire_once(
        t0: &Self,
        t1: &Self,
        t2: &Self,
        now: u64,
        expired: Seq<Transaction<C>>,
        k: int,
        r: Option<Transaction<C>>,
    )
        requires
            t0.wf(),
            0 <= k < t0.spec_pending().len(),
            now > t0.spec_pending()[k].deadline,
            Self::expire_post(t0, t1, now, expired),
            Self::complete_post(t1, t2, t0.spec_pending()[k].id, r),
        ensures
            exists|i: int| 0 <= i < expired.len() && expired[i] == t0.spec_pending()[k],
            forall|i: int, j: int|
                0 <= i < expired.len() && 0 <= j < expired.len() && expired[i].id == t0.spec_pending()[k].id
                    && expired[j].id == t0.spec_pending()[k].id ==> i == j,
            r is None,
    {
        let s = t0.spec_pending();
        let id = s[k].id;
        let pe = |t: Transaction<C>| overdue(t, now);
        let pk = |t: Transaction<C>| !overdue(t, now);
        assert(s == t0.pending@);
        lemma_filter_ids(s, pe);
        lemma_filter_ids(s, pk);
        s.lemma_filter_contains(pe, k);
        assert(expired == s.filter(pe));
        if t1.has(id) {
            let kept = t1.spec_pending();
            assert(kept == s.filter(pk));
            let m = choose|m: int| 0 <= m < kept.len() && kept[m].id == id;
            s.lemma_filter_pred(pk, m);
            s.lemma_filter_contains_rev(pk, kept[m]);
            let x = choose|x: int| 0 <= x < s.len() && s[x] == kept[m];
            assert(t0.pending@[x].id == t0.pending@[k].id);
        }
    }
}

/// Filtering a sequence of transactions with distinct ids keeps the ids
/// distinct and draws every element from the sequence.
proof fn lemma_filter_ids<C>(s: Seq<Transaction<C>>, pred: spec_fn(Transaction<C>) -> bool)
    requires
        forall|i: int, j: int|
            0 <= i < s.len() && 0 <= j < s.len() && #[trigger] s[i].id == #[trigger] s[j].id ==> i == j,
    ensures
        forall|i: int, j: int|
            0 <= i < s.filter(pred).len() && 0 <= j < s.filter(pred).len() && #[trigger] s.filter(pred)[i].id
                == #[trigger] s.filter(pred)[j].id ==> i == j,
        forall|i: int| 0 <= i < s.filter(pred).len() ==> s.contains(#[trigger] s.filter(pred)[i]),
    decreases s.len(),
{
    reveal(Seq::filter);
    if s.len() > 0 {
        let s2 = s.drop_last();
        lemma_filter_ids(s2, pred);
        let f2 = s2.filter(pred);
        let f = s.filter(pred);
        assert forall|i: int| 0 <= i < f2.len() implies #[trigger] f2[i].id != s.last().id by {
            let j = choose|j: int| 0 <= j < s2.len() && s2[j] == f2[i];
            assert(s[j] == s2[j]);
            assert(s[j].id != s[s.len() - 1].id);
        }
        assert forall|i: int| 0 <= i < f.len() implies s.contains(#[trigger] f[i]) by {
            if i < f2.len() {
                assert(f[i] == f2[i]);
                let j = choose|j: int| 0 <= j < s2.len() && s2[j] == f2[i];
                assert(s[j] == s2[j]);
            } else {
                assert(f[i] == s[s.len() - 1]);
            }
        }
        assert forall|i: int, j: int|
            0 <= i < f.len() && 0 <= j < f.len() && #[trigger] f[i].id == #[trigger] f[j].id implies i == j by {
            if i < f2.len() && j < f2.len() {
                assert(f[i] == f2[i] && f[j] == f2[j]);
            } else if i < f2.len() {
                assert(f[i] == f2[i]);
            } else if j < f2.len() {
                assert(f[j] == f2[j]);
            }
        }
    }
}

} // verus!
