use crate::address::Address;
use crate::lookup::{CandidateView, Lookup};
use crate::node::{views, Node, NodeView};
use crate::routing_table::RoutingTable;
use crate::transaction::{overdue, Transaction, TransactionTable};
use vstd::prelude::*;

verus! {

/// A find-node query to send: to whom, and under which transaction id.
pub struct Query {
    pub destination: Node,
    pub transaction_id: u32,
}

/// Drives one lookup: sends its rounds of queries through the transaction
/// table, folds answers into the routing table and the lookup, and turns
/// timeouts into failures. The surrounding runtime sends the queries, hands
/// back the responses, and calls `on_tick` at a bounded interval.
pub struct Coordinator {
    table: RoutingTable,
    transactions: TransactionTable<Address>,
    lookup: Lookup,
    timeout: u64,
}

/// Whether the lookup holds a candidate named `a` whose query failed.
pub open spec fn failed_candidate(l: Lookup, a: Address) -> bool {
    exists|j: int|
        0 <= j < l.spec_candidates().len() && l.spec_candidates()[j].node.address == a
            && l.spec_candidates()[j].failed
}

/// The peers a sequence of queries goes to.
pub open spec fn destinations(qs: Seq<Query>) -> Seq<NodeView> {
    qs.map_values(|q: Query| q.destination@)
}

/// `now + timeout`, or the largest time if that overflows.
pub open spec fn deadline_after(now: u64, timeout: u64) -> u64 {
    if now as int + timeout as int <= u64::MAX as int {
        (now + timeout) as u64
    } else {
        u64::MAX
    }
}

impl Coordinator {
    pub closed spec fn spec_table(&self) -> RoutingTable {
        self.table
    }

    pub closed spec fn spec_transactions(&self) -> TransactionTable<Address> {
        self.transactions
    }

    pub closed spec fn spec_lookup(&self) -> Lookup {
        self.lookup
    }

    pub closed spec fn spec_timeout(&self) -> u64 {
        self.timeout
    }

    pub closed spec fn wf(&self) -> bool {
        &&& self.table.wf()
        &&& self.transactions.wf()
        &&& self.lookup.wf()
    }

    /// A lookup of `target` over `table`, seeded with the table's nearest
    /// peers and its bootstrap peers, with `k` the table's bucket capacity;
    /// queries are awaited for `timeout` seconds.
    pub fn new(table: RoutingTable, target: Address, alpha: usize, max_rounds: u32, timeout: u64) -> (r: Coordinator)
        requires
            table.wf(),
        ensures
            r.wf(),
            r.spec_table() == table,
            r.spec_transactions().spec_pending().len() == 0,
            r.spec_lookup().spec_target() == target,
            r.spec_lookup().spec_k() == table.spec_k(),
            r.spec_lookup().spec_alpha() == alpha,
            r.spec_lookup().spec_max_rounds() == max_rounds,
            r.spec_lookup().spec_rounds() == 0,
            r.spec_lookup().spec_best() is None,
            r.spec_timeout() == timeout,
            exists|seeds: Seq<NodeView>|
                {
                    &&& table.nearest_to_post(target, true, seeds)
                    &&& forall|a: Address|
                        #[trigger] r.spec_lookup().has_candidate(a) <==> exists|i: int|
                            0 <= i < seeds.len() && seeds[i].address == a
                },
            forall|i: int|
                0 <= i < r.spec_lookup().spec_candidates().len() ==> !(
                #[trigger] r.spec_lookup().spec_candidates()[i]).queried
                    && !r.spec_lookup().spec_candidates()[i].failed,
    {
        let seeds = table.nearest_to(&target, true);
        let ghost sv = views(seeds@);
        let k = table.k();
        let lookup = Lookup::new(target, k, alpha, max_rounds, seeds);
        let r = Coordinator { table, transactions: TransactionTable::new(), lookup, timeout };
        proof {
            assert forall|a: Address| #[trigger] r.spec_lookup().has_candidate(a) <==> exists|i: int|
                0 <= i < sv.len() && sv[i].address == a by {
                if exists|i: int| 0 <= i < seeds@.len() && seeds@[i].address == a {
                    let i = choose|i: int| 0 <= i < seeds@.len() && seeds@[i].address == a;
                    assert(sv[i].address == a);
                }
                if exists|i: int| 0 <= i < sv.len() && sv[i].address == a {
                    let i = choose|i: int| 0 <= i < sv.len() && sv[i].address == a;
                    assert(seeds@[i].address == a);
                }
            }
        }
        r
    }

    /// Starts the next round of the lookup at time `now`: the lookup picks
    /// the peers to query, and each gets a transaction with a fresh id,
    /// awaited until `now + timeout`, in that order. Should every id be
    /// pending, the queries from there on are not sent.
    pub fn start_round(&mut self, now: u64) -> (r: Vec<Query>)
        requires
            old(self).wf(),
        ensures
            final(self).wf(),
            final(self).spec_table() == old(self).spec_table(),
            final(self).spec_timeout() == old(self).spec_timeout(),
            exists|sent: Seq<NodeView>|
                {
                    &&& Lookup::next_round_post(&old(self).spec_lookup(), &final(self).spec_lookup(), sent)
                    &&& r@.len() <= sent.len()
                    &&& destinations(r@) == sent.take(r@.len() as int)
                    &&& old(self).spec_transactions().spec_pending().len() + sent.len() < 0x1_0000_0000
                        ==> r@.len() == sent.len()
                },
            ({
                let op = old(self).spec_transactions().spec_pending();
                let fp = final(self).spec_transactions().spec_pending();
                &&& fp.len() == op.len() + r@.len()
                &&& fp.take(op.len() as int) == op
                &&& forall|i: int|
                    0 <= i < r@.len() ==> fp[op.len() + i] == (Transaction {
                        id: (#[trigger] r@[i]).transaction_id,
                        destination: r@[i].destination.address,
                        deadline: deadline_after(now, old(self).spec_timeout()),
                        continuation: r@[i].destination.address,
                    })
                &&& forall|i: int|
                    0 <= i < r@.len() ==> !old(self).spec_transactions().has(
                        #[trigger] r@[i].transaction_id,
                    )
            }),
    {
        let targets = self.lookup.next_round();
        let ghost sent = views(targets@);
        let deadline = if now <= u64::MAX - self.timeout {
            now + self.timeout
        } else {
            u64::MAX
        };
        let mut out: Vec<Query> = Vec::new();
        let ghost op = self.transactions.spec_pending();
        let ghost start = self.transactions;
        let mut i: usize = 0;
        let mut stopped = false;
        while i < targets.len() && !stopped
            invariant
                self.transactions.wf(),
                self.table == old(self).table,
                self.timeout == old(self).timeout,
                self.lookup.wf(),
                self.table.wf(),
                Lookup::next_round_post(&old(self).lookup, &self.lookup, sent),
                sent == views(targets@),
                start == old(self).transactions,
                op == start.spec_pending(),
                deadline == deadline_after(now, old(self).timeout),
                i <= targets@.len(),
                out@.len() == i,
                !stopped ==> op.len() + i == self.transactions.spec_pending().len(),
                stopped ==> op.len() + sent.len() >= 0x1_0000_0000,
                self.transactions.spec_pending().len() == op.len() + out@.len(),
                self.transactions.spec_pending().take(op.len() as int) == op,
                destinations(out@) == sent.take(out@.len() as int),
                forall|j: int|
                    0 <= j < out@.len() ==> self.transactions.spec_pending()[op.len() + j] == (
                    Transaction {
                        id: (#[trigger] out@[j]).transaction_id,
                        destination: out@[j].destination.address,
                        deadline,
                        continuation: out@[j].destination.address,
                    }),
                forall|j: int| 0 <= j < out@.len() ==> !start.has(#[trigger] out@[j].transaction_id),
            decreases targets@.len() - i, if stopped { 0int } else { 1int },
        {
            let node = targets[i].duplicate();
            let ghost before = self.transactions;
            let begun = self.transactions.begin(node.address, node.address, deadline);
            match begun {
                Some(id) => {
                    let ghost out_before = out@;
                    proof {
                        assert(!start.has(id)) by {
                            if start.has(id) {
                                let k = choose|k: int| 0 <= k < op.len() && op[k].id == id;
                                assert(before.spec_pending()[k] == op[k]);
                            }
                        }
                    }
                    out.push(Query { destination: node, transaction_id: id });
                    proof {
                        let fp = self.transactions.spec_pending();
                        assert(fp.take(op.len() as int) =~= op);
                        assert(destinations(out@) =~= sent.take(out@.len() as int));
                        assert forall|j: int| 0 <= j < out@.len() implies fp[op.len() + j] == (
                        Transaction {
                            id: (#[trigger] out@[j]).transaction_id,
                            destination: out@[j].destination.address,
                            deadline,
                            continuation: out@[j].destination.address,
                        }) by {
                            if j < out_before.len() {
                                assert(out@[j] == out_before[j]);
                                assert(fp[op.len() + j] == before.spec_pending()[op.len() + j]);
                            }
                        }
                        assert forall|j: int| 0 <= j < out@.len() implies !start.has(
                            #[trigger] out@[j].transaction_id,
                        ) by {
                            if j < out_before.len() {
                                assert(out@[j] == out_before[j]);
                            }
                        }
                    }
                    i = i + 1;
                },
                None => {
                    proof {
                        assert(before.spec_pending().len() >= 0x1_0000_0000);
                    }
                    stopped = true;
                },
            }
        }
        proof {
            if !stopped {
                assert(out@.len() == sent.len());
            }
        }
        out
    }

    /// The answer to transaction `transaction_id` arrived at time `now`,
    /// naming `peers`: every peer named is offered to the routing table and
    /// to the lookup, and the answering peer is confirmed in the lookup and
    /// marked alive in the table. Returns false, and
    /// changes nothing, for an id that is not pending (a duplicate, a late
    /// answer after expiry, or an unknown one).
    pub fn on_response(&mut self, transaction_id: u32, peers: Vec<Node>, now: u64) -> (r: bool)
        requires
            old(self).wf(),
        ensures
            final(self).wf(),
            r == old(self).spec_transactions().has(transaction_id),
            !r ==> final(self).spec_table() == old(self).spec_table() && final(self).spec_lookup()
                == old(self).spec_lookup() && final(self).spec_transactions().spec_pending()
                == old(self).spec_transactions().spec_pending(),
            r ==> !final(self).spec_transactions().has(transaction_id),
            r ==> forall|i: int|
                0 <= i < peers@.len() ==> #[trigger] final(self).spec_lookup().has_candidate(
                    peers@[i].address,
                ),
            forall|k: int|
                0 <= k < old(self).spec_transactions().spec_pending().len()
                    && #[trigger] old(self).spec_transactions().spec_pending()[k].id == transaction_id
                    ==> {
                    let who = old(self).spec_transactions().spec_pending()[k].continuation;
                    &&& old(self).spec_lookup().has_candidate(who) ==> exists|j: int|
                        0 <= j < final(self).spec_lookup().spec_candidates().len()
                            && final(self).spec_lookup().spec_candidates()[j].node.address == who
                            && final(self).spec_lookup().spec_candidates()[j].answered
                    &&& forall|h: int|
                        0 <= h < final(self).spec_table().spec_nodes().len()
                            && #[trigger] final(self).spec_table().spec_nodes()[h].address == who
                            ==> final(self).spec_table().spec_nodes()[h].last_seen == now
                            && final(self).spec_table().spec_nodes()[h].failures == 0
                },
            final(self).spec_timeout() == old(self).spec_timeout(),
    {
        let ghost t0 = self.transactions;
        let completed = self.transactions.complete(transaction_id);
        match completed {
            None => false,
            Some(t) => {
                proof {
                    TransactionTable::<Address>::lemma_complete_removes(
                        &t0,
                        &self.transactions,
                        transaction_id,
                        Some(t),
                    );
                }
                let who = t.continuation;
                let ghost l0 = self.lookup;
                let _ = self.lookup.on_answer(&who);
                proof {
                    assert(t0.spec_pending().contains(t));
                    if l0.has_candidate(who) {
                        let i = choose|i: int|
                            0 <= i < l0.spec_candidates().len() && l0.spec_candidates()[i].node.address == who;
                        assert(self.lookup.spec_candidates()[i].answered);
                    }
                }
                let ghost l1 = self.lookup;
                let mut i: usize = 0;
                while i < peers.len()
                    invariant
                        self.table.wf(),
                        self.lookup == l1,
                        self.lookup.wf(),
                        self.transactions.wf(),
                        !self.transactions.has(transaction_id),
                        self.timeout == old(self).timeout,
                        i <= peers@.len(),
                    decreases peers@.len() - i,
                {
                    let copy = peers[i].duplicate();
                    let _ = self.table.insert(copy);
                    i = i + 1;
                }
                self.lookup.add_all(peers);
                proof {
                    if old(self).spec_lookup().has_candidate(who) {
                        let i = choose|i: int|
                            0 <= i < l1.spec_candidates().len() && l1.spec_candidates()[i].node.address == who
                                && l1.spec_candidates()[i].answered;
                        assert(self.lookup.spec_candidates().contains(l1.spec_candidates()[i]));
                        let j = choose|j: int|
                            0 <= j < self.lookup.spec_candidates().len()
                                && self.lookup.spec_candidates()[j] == l1.spec_candidates()[i];
                        assert(self.lookup.spec_candidates()[j].node.address == who);
                    }
                }
                let ghost tb = self.table;
                let _ = self.table.record_success(&who, now);
                proof {
                    assert forall|h: int|
                        0 <= h < self.table.spec_nodes().len() && #[trigger] self.table.spec_nodes()[h].address
                            == who implies self.table.spec_nodes()[h].last_seen == now
                        && self.table.spec_nodes()[h].failures == 0 by {
                        assert(tb.spec_nodes()[h].address == who);
                    }
                    assert forall|k: int|
                        0 <= k < t0.spec_pending().len() && #[trigger] t0.spec_pending()[k].id
                            == transaction_id implies t0.spec_pending()[k].continuation == who by {}
                    assert(self.lookup.spec_candidates() == self.spec_lookup().spec_candidates());
                    assert(self.table.spec_nodes() == self.spec_table().spec_nodes());
                    assert(old(self).spec_lookup() == l0);
                    assert(t0 == old(self).spec_transactions());
                    assert forall|k: int|
                        0 <= k < t0.spec_pending().len() && #[trigger] t0.spec_pending()[k].id
                            == transaction_id implies (l0.has_candidate(who) ==> exists|j: int|
                        0 <= j < self.lookup.spec_candidates().len()
                            && self.lookup.spec_candidates()[j].node.address == who
                            && self.lookup.spec_candidates()[j].answered) by {
                        if l0.has_candidate(who) {
                            let i = choose|i: int|
                                0 <= i < l1.spec_candidates().len() && l1.spec_candidates()[i].node.address == who
                                    && l1.spec_candidates()[i].answered;
                            let j = choose|j: int|
                                0 <= j < self.lookup.spec_candidates().len()
                                    && self.lookup.spec_candidates()[j] == l1.spec_candidates()[i];
                            assert(self.lookup.spec_candidates()[j].node.address == who);
                        }
                    }
                }
                true
            },
        }
    }

    /// Expires the transactions overdue at time `now`: each peer that did
    /// not answer in time gets a failure in the routing table and is dropped
    /// from the lookup. Returns the expired transactions' ids.
    pub fn on_tick(&mut self, now: u64) -> (r: Vec<u32>)
        requires
            old(self).wf(),
        ensures
            final(self).wf(),
            final(self).spec_timeout() == old(self).spec_timeout(),
            TransactionTable::<Address>::expire_post(
                &old(self).spec_transactions(),
                &final(self).spec_transactions(),
                now,
                old(self).spec_transactions().spec_pending().filter(
                    |t: Transaction<Address>| overdue(t, now),
                ),
            ),
            r@ == old(self).spec_transactions().spec_pending().filter(
                |t: Transaction<Address>| overdue(t, now),
            ).map_values(|t: Transaction<Address>| t.id),
            ({
                let e = old(self).spec_transactions().spec_pending().filter(
                    |t: Transaction<Address>| overdue(t, now),
                );
                forall|i: int|
                    0 <= i < e.len() && old(self).spec_lookup().has_candidate(
                        #[trigger] e[i].continuation,
                    ) ==> failed_candidate(final(self).spec_lookup(), e[i].continuation)
            }),
    {
        let expired = self.transactions.expire_overdue(now);
        let ghost e = expired@;
        let ghost final_transactions = self.transactions;
        let mut ids: Vec<u32> = Vec::new();
        let mut i: usize = 0;
        while i < expired.len()
            invariant
                self.table.wf(),
                self.lookup.wf(),
                self.transactions.wf(),
                self.transactions == final_transactions,
                self.timeout == old(self).timeout,
                e == expired@,
                i <= e.len(),
                ids@ == e.take(i as int).map_values(|t: Transaction<Address>| t.id),
                forall|a: Address| #[trigger] self.lookup.has_candidate(a) == old(self).lookup.has_candidate(a),
                forall|k: int|
                    0 <= k < i && old(self).lookup.has_candidate(#[trigger] e[k].continuation)
                        ==> failed_candidate(self.lookup, e[k].continuation),
            decreases e.len() - i,
        {
            let who = expired[i].continuation;
            let _ = self.table.record_failure(&who);
            let ghost l0 = self.lookup;
            let _ = self.lookup.on_timeout(&who);
            proof {
                let c0 = l0.spec_candidates();
                let c1 = self.lookup.spec_candidates();
                assert(c1.len() == c0.len()) by {
                    if l0.has_candidate(who) {
                        let x = choose|x: int| 0 <= x < c0.len() && c0[x].node.address == who;
                        assert(c0[x].node.address == who);
                    }
                }
                assert forall|j: int| 0 <= j < c0.len() implies #[trigger] c1[j].node == c0[j].node
                    && (c0[j].failed ==> c1[j].failed) && (c0[j].node.address == who ==> c1[j].failed) by {
                    if l0.has_candidate(who) {
                        let x = choose|x: int| 0 <= x < c0.len() && c0[x].node.address == who;
                        assert(c0[x].node.address == who);
                        assert(c1 == c0.update(x, CandidateView { failed: true, ..c0[x] }));
                        if c0[j].node.address == who {
                            assert(self.lookup.wf());
                        }
                    }
                }
                assert forall|a: Address| #[trigger] self.lookup.has_candidate(a) == l0.has_candidate(a) by {
                    if l0.has_candidate(a) {
                        let x = choose|x: int| 0 <= x < c0.len() && c0[x].node.address == a;
                        assert(c1[x].node == c0[x].node);
                    }
                    if self.lookup.has_candidate(a) {
                        let x = choose|x: int| 0 <= x < c1.len() && c1[x].node.address == a;
                        assert(c1[x].node == c0[x].node);
                    }
                }
                assert forall|k: int|
                    0 <= k < i + 1 && old(self).lookup.has_candidate(#[trigger] e[k].continuation)
                        implies failed_candidate(self.lookup, e[k].continuation) by {
                    if k < i {
                        let x = choose|x: int| 0 <= x < c0.len() && c0[x].node.address == e[k].continuation && c0[x].failed;
                        assert(c1[x].node == c0[x].node);
                    } else {
                        assert(l0.has_candidate(who));
                        let x = choose|x: int| 0 <= x < c0.len() && c0[x].node.address == who;
                        assert(c1[x].node == c0[x].node);
                    }
                }
            }
            ids.push(expired[i].id);
            i = i + 1;
            proof {
                assert(ids@ =~= e.take(i as int).map_values(|t: Transaction<Address>| t.id));
            }
        }
        proof {
            assert(e.take(e.len() as int) =~= e);
        }
        ids
    }

    /// Whether the lookup is over.
    pub fn is_finished(&self) -> (r: bool)
        ensures
            r == self.spec_lookup().finished(),
    {
        self.lookup.is_finished()
    }

    /// The peers the lookup found: the at most `k` nearest that answered and
    /// did not later time out, nearest first.
    pub fn result(&self) -> (r: Vec<Node>)
        ensures
            views(r@) == crate::lookup::peers_of(
                crate::lookup::first(
                    crate::lookup::confirmed(self.spec_lookup().spec_candidates()),
                    self.spec_lookup().spec_k(),
                ),
            ),
    {
        self.lookup.result()
    }

    /// The routing table, as the lookup has left it.
    pub fn table(&self) -> (r: &RoutingTable)
        ensures
            *r == self.spec_table(),
    {
        &self.table
    }
}

} // verus!
