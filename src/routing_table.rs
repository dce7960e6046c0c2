use crate::address::{bit_at, distance, lemma_address_ext, lemma_distance_injective, Address, LENGTH};
use std::cmp::Ordering;
use crate::node::{questionable, views, Node, NodeView};
use crate::node_bucket::{side, side_pred, NodeBucket};
use vstd::prelude::*;

verus! {

broadcast use vstd::array::group_array_axioms;

/// What became of a peer handed to `RoutingTable::insert`.
#[derive(Clone, Copy, Debug, PartialEq, Eq, Structural)]
pub enum InsertOutcome {
    /// The peer is the table's own node.
    Ignored,
    /// The peer was new and has been added.
    Inserted,
    /// The peer was known and its record has been replaced.
    Updated,
    /// The peer's bucket is full and may not split.
    Discarded,
}

pub type InsertionResult = Result<InsertOutcome, String>;

/// The peers a node knows, partitioned into buckets by identifier range.
///
/// Peer records live in `nodes`; each bucket holds positions in it. Only the
/// bucket whose range holds the table's own identifier is ever split, so the
/// buckets refine the space near that identifier.
pub struct RoutingTable {
    k: usize,
    self_address: Address,
    routers: Vec<Node>,
    nodes: Vec<Node>,
    buckets: Vec<NodeBucket>,
}

/// Exactly one of the buckets covers `id`.
pub open spec fn covered_once(bs: Seq<NodeBucket>, id: Address) -> bool {
    &&& exists|i: int| 0 <= i < bs.len() && #[trigger] bs[i].spec_covers(id)
    &&& forall|i: int, j: int|
        0 <= i < bs.len() && 0 <= j < bs.len() && #[trigger] bs[i].spec_covers(id)
            && #[trigger] bs[j].spec_covers(id) ==> i == j
}

/// The identifiers of a sequence of peers.
pub open spec fn addresses(s: Seq<NodeView>) -> Seq<Address> {
    s.map_values(|v: NodeView| v.address)
}

/// `r` lists peers of `ns` by strictly increasing distance to `target`, and
/// holds every peer of `ns` that is no farther than its last one.
pub open spec fn nearest_prefix(r: Seq<NodeView>, ns: Seq<NodeView>, target: Address) -> bool {
    &&& forall|i: int| 0 <= i < r.len() ==> #[trigger] ns.contains(r[i])
    &&& forall|i: int, j: int|
        0 <= i < j < r.len() ==> distance(#[trigger] r[i].address, target) < distance(
            #[trigger] r[j].address,
            target,
        )
    &&& forall|h: int|
        0 <= h < ns.len() && r.len() > 0 && distance(#[trigger] ns[h].address, target) <= distance(
            r.last().address,
            target,
        ) ==> addresses(r).contains(ns[h].address)
}

/// The at most `limit` peers of `ns` nearest to `target`, nearest first.
pub open spec fn is_nearest(r: Seq<NodeView>, ns: Seq<NodeView>, target: Address, limit: nat) -> bool {
    &&& r.len() == if limit < ns.len() { limit } else { ns.len() }
    &&& nearest_prefix(r, ns, target)
}

/// Two buckets with the same capacity, range and peers.
pub open spec fn same_bucket(x: NodeBucket, y: NodeBucket) -> bool {
    &&& x.k == y.k
    &&& x.prefix == y.prefix
    &&& x.depth == y.depth
    &&& x.handles@ == y.handles@
}

/// Some bucket holds store position `h`.
pub open spec fn filed(bs: Seq<NodeBucket>, h: int) -> bool {
    exists|i: int, j: int|
        0 <= i < bs.len() && 0 <= j < bs[i].handles@.len() && #[trigger] bs[i].handles@[j] == h
}

/// Exactly one of the buckets covers each identifier.
pub open spec fn partitions(bs: Seq<NodeBucket>) -> bool {
    forall|id: Address| #[trigger] covered_once(bs, id)
}

impl RoutingTable {
    /// Capacity of each bucket.
    pub closed spec fn spec_k(&self) -> nat {
        self.k as nat
    }

    /// The table's own identifier.
    pub closed spec fn spec_self_address(&self) -> Address {
        self.self_address
    }

    /// The peer records, in the order they were first inserted.
    pub closed spec fn spec_nodes(&self) -> Seq<NodeView> {
        views(self.nodes@)
    }

    /// The bootstrap peers.
    pub closed spec fn spec_routers(&self) -> Seq<NodeView> {
        views(self.routers@)
    }

    /// The buckets, ordered by range.
    pub closed spec fn spec_buckets(&self) -> Seq<NodeBucket> {
        self.buckets@
    }

    /// The table's invariant: the buckets partition the identifier space,
    /// each within capacity and holding only peers of its range; every record
    /// sits in a bucket; records carry distinct identifiers, none the table's
    /// own; and no bucket is deeper than the bucket count allows.
    pub closed spec fn wf(&self) -> bool {
        let bs = self.buckets@;
        let ns = self.nodes@;
        &&& 1 <= bs.len() <= LENGTH
        &&& forall|i: int|
            0 <= i < bs.len() ==> {
                &&& #[trigger] bs[i].wf(views(ns))
                &&& bs[i].k == self.k
                &&& bs[i].depth < bs.len()
            }
        &&& partitions(bs)
        &&& forall|h: int| 0 <= h < ns.len() ==> #[trigger] filed(bs, h)
        &&& forall|h1: int, h2: int|
            0 <= h1 < ns.len() && 0 <= h2 < ns.len() && #[trigger] ns[h1].address
                == #[trigger] ns[h2].address ==> h1 == h2
        &&& forall|h: int| 0 <= h < ns.len() ==> #[trigger] ns[h].address != self.self_address
    }

    /// The position of the bucket covering `a`.
    pub open spec fn bucket_index(&self, a: Address) -> int {
        choose|i: int| 0 <= i < self.spec_buckets().len() && self.spec_buckets()[i].spec_covers(a)
    }

    /// Whether the table holds a peer named `a`.
    pub open spec fn holds(&self, a: Address) -> bool {
        exists|h: int| 0 <= h < self.spec_nodes().len() && self.spec_nodes()[h].address == a
    }

    /// An empty table for the node named `self_address`, with buckets of
    /// capacity `k` and the given bootstrap peers.
    pub fn new(k: usize, self_address: Address, routers: Vec<Node>) -> (r: RoutingTable)
        ensures
            r.wf(),
            r.spec_k() == k,
            r.spec_self_address() == self_address,
            r.spec_routers() == views(routers@),
            r.spec_nodes().len() == 0,
            r.spec_buckets().len() == 1,
            r.spec_buckets()[0].handles@.len() == 0,
            r.spec_buckets()[0].k == k,
            r.spec_buckets()[0].depth == 0,
            forall|id: Address| #[trigger] r.spec_buckets()[0].spec_covers(id),
    {
        let bucket = NodeBucket::new(k);
        let mut buckets: Vec<NodeBucket> = Vec::new();
        buckets.push(bucket);
        let r = RoutingTable { k, self_address, routers, nodes: Vec::new(), buckets };
        proof {
            assert forall|id: Address| #[trigger] covered_once(r.buckets@, id) by {
                assert(r.buckets@[0].spec_covers(id));
            }
        }
        r
    }

    /// Number of buckets.
    pub fn bucket_count(&self) -> (r: usize)
        ensures
            r == self.spec_buckets().len(),
    {
        self.buckets.len()
    }

    /// Number of peers held.
    pub fn len(&self) -> (r: usize)
        ensures
            r == self.spec_nodes().len(),
    {
        self.nodes.len()
    }

    /// Capacity of each bucket.
    pub fn k(&self) -> (r: usize)
        ensures
            r == self.spec_k(),
    {
        self.k
    }

    /// The table's own identifier.
    pub fn self_address(&self) -> (r: Address)
        ensures
            r == self.spec_self_address(),
    {
        self.self_address
    }

    /// Position of the bucket whose range holds `address`.
    fn bucket_for(&self, address: &Address) -> (r: usize)
        requires
            self.wf(),
        ensures
            r < self.spec_buckets().len(),
            self.spec_buckets()[r as int].spec_covers(*address),
            r == self.bucket_index(*address),
    {
        let mut i: usize = 0;
        while i < self.buckets.len()
            invariant
                self.wf(),
                i <= self.buckets@.len(),
                forall|j: int| 0 <= j < i ==> !(#[trigger] self.buckets@[j].spec_covers(*address)),
            decreases self.buckets@.len() - i,
        {
            assert(self.buckets@[i as int].wf(views(self.nodes@)));
            if self.buckets[i].covers(address) {
                proof {
                    assert(covered_once(self.buckets@, *address));
                    let c = self.bucket_index(*address);
                    assert(self.buckets@[c].spec_covers(*address));
                }
                return i;
            }
            i = i + 1;
        }
        proof {
            assert(covered_once(self.buckets@, *address));
            let w = choose|w: int|
                0 <= w < self.buckets@.len() && #[trigger] self.buckets@[w].spec_covers(*address);
            assert(self.buckets@[w].spec_covers(*address));
        }
        0
    }

    /// Files a peer. The table's own identifier is `Ignored`. Otherwise, while
    /// the bucket covering the peer is full, covers the table's own
    /// identifier, and the table has fewer than 160 buckets, that bucket is
    /// split in two. Then a known peer's record is replaced (`Updated`), a new
    /// peer is added if its bucket has room (`Inserted`), and is dropped
    /// otherwise (`Discarded`).
    pub fn insert(&mut self, node: Node) -> (r: InsertionResult)
        requires
            old(self).wf(),
        ensures
            final(self).wf(),
            r is Ok,
            final(self).spec_k() == old(self).spec_k(),
            final(self).spec_self_address() == old(self).spec_self_address(),
            final(self).spec_routers() == old(self).spec_routers(),
            final(self).spec_buckets().len() >= old(self).spec_buckets().len(),
            node.address == old(self).spec_self_address() ==> r == Ok::<InsertOutcome, String>(
                InsertOutcome::Ignored,
            ) && final(self).spec_nodes() == old(self).spec_nodes() && final(self).spec_buckets()
                == old(self).spec_buckets(),
            node.address != old(self).spec_self_address() ==> r != Ok::<InsertOutcome, String>(
                InsertOutcome::Ignored,
            ),
            forall|h: int|
                0 <= h < old(self).spec_nodes().len() && #[trigger] old(self).spec_nodes()[h].address
                    == node.address ==> r == Ok::<InsertOutcome, String>(InsertOutcome::Updated)
                    && final(self).spec_nodes() == old(self).spec_nodes().update(h, node@),
            node.address != old(self).spec_self_address() && !old(self).holds(node.address) ==> {
                ||| r == Ok::<InsertOutcome, String>(InsertOutcome::Inserted)
                    && final(self).spec_nodes() == old(self).spec_nodes().push(node@)
                ||| r == Ok::<InsertOutcome, String>(InsertOutcome::Discarded)
                    && final(self).spec_nodes() == old(self).spec_nodes()
            },
            ({
                let b = old(self).spec_buckets()[old(self).bucket_index(node.address)];
                let splittable = b.spec_covers(old(self).spec_self_address())
                    && old(self).spec_buckets().len() < LENGTH;
                &&& node.address != old(self).spec_self_address() && b.handles@.len() < b.k ==> {
                    &&& final(self).spec_buckets().len() == old(self).spec_buckets().len()
                    &&& r != Ok::<InsertOutcome, String>(InsertOutcome::Discarded)
                }
                &&& node.address != old(self).spec_self_address() && b.handles@.len() >= b.k
                    && !splittable ==> {
                    &&& final(self).spec_buckets() == old(self).spec_buckets()
                    &&& (r == Ok::<InsertOutcome, String>(InsertOutcome::Discarded)) == !old(
                        self,
                    ).holds(node.address)
                }
                &&& node.address != old(self).spec_self_address() && b.handles@.len() >= b.k
                    && splittable ==> {
                    &&& final(self).spec_buckets().len() > old(self).spec_buckets().len()
                    &&& Self::same_half(b, old(self).spec_nodes(), node.address).len() < b.k ==> {
                        &&& final(self).spec_buckets().len() == old(self).spec_buckets().len() + 1
                        &&& r != Ok::<InsertOutcome, String>(InsertOutcome::Discarded)
                    }
                }
            }),
            ({
                let bi = old(self).bucket_index(node.address);
                let ob = old(self).spec_buckets();
                let fb = final(self).spec_buckets();
                let inserted = r == Ok::<InsertOutcome, String>(InsertOutcome::Inserted);
                fb.len() == ob.len() ==> {
                    &&& forall|i: int|
                        0 <= i < ob.len() && (i != bi || !inserted) ==> same_bucket(
                            #[trigger] fb[i],
                            ob[i],
                        )
                    &&& inserted ==> {
                        &&& fb[bi].k == ob[bi].k
                        &&& fb[bi].prefix == ob[bi].prefix
                        &&& fb[bi].depth == ob[bi].depth
                        &&& fb[bi].handles@ == ob[bi].handles@.push(
                            old(self).spec_nodes().len() as usize,
                        )
                    }
                }
            }),
            ({
                let bi = old(self).bucket_index(node.address);
                let ob = old(self).spec_buckets();
                let fb = final(self).spec_buckets();
                let d = ob[bi].depth as int;
                let v = bit_at(node.address.data@, d);
                let inserted = r == Ok::<InsertOutcome, String>(InsertOutcome::Inserted);
                let mine = side(ob[bi].handles@, old(self).spec_nodes(), d, v);
                fb.len() == ob.len() + 1 ==> {
                    &&& forall|i: int| 0 <= i < bi ==> same_bucket(#[trigger] fb[i], ob[i])
                    &&& forall|i: int| bi < i < ob.len() ==> same_bucket(#[trigger] fb[i + 1], ob[i])
                    &&& forall|id: Address|
                        #[trigger] fb[bi].spec_covers(id) <==> ob[bi].spec_covers(id) && bit_at(
                            id.data@,
                            d,
                        ) == 0
                    &&& forall|id: Address|
                        #[trigger] fb[bi + 1].spec_covers(id) <==> ob[bi].spec_covers(id) && bit_at(
                            id.data@,
                            d,
                        ) == 1
                    &&& fb[bi].k == ob[bi].k && fb[bi + 1].k == ob[bi].k
                    &&& fb[bi].depth == d + 1 && fb[bi + 1].depth == d + 1
                    &&& fb[bi + v].handles@ == if inserted {
                        mine.push(old(self).spec_nodes().len() as usize)
                    } else {
                        mine
                    }
                    &&& fb[bi + 1 - v].handles@ == side(
                        ob[bi].handles@,
                        old(self).spec_nodes(),
                        d,
                        (1 - v) as u8,
                    )
                }
            }),
        decreases LENGTH - old(self).spec_buckets().len(),
    {
        let same = node.address == self.self_address;
        if same {
            proof {
                lemma_address_ext(node.address, self.self_address);
            }
            return Ok(InsertOutcome::Ignored);
        }
        let index = self.bucket_for(&node.address);
        let ghost t = *self;
        let ghost bi = index as int;
        proof {
            assert(self.buckets@[bi].wf(views(self.nodes@)));
            self.lemma_not_held_elsewhere(node.address);
        }
        if !self.buckets_maxed() && self.buckets[index].is_full() && self.buckets[index].covers(
            &self.self_address,
        ) {
            let (lo, hi) = self.buckets[index].split(&self.nodes);
            self.buckets.set(index, lo);
            self.buckets.insert(index + 1, hi);
            proof {
                Self::lemma_split_keeps_wf(&t, self, bi, lo, hi);
                let d = t.buckets@[bi].depth as int;
                let a = node.address;
                crate::address::lemma_bit_values(a.data@, d);
                let w = if bit_at(a.data@, d) == 0 { bi } else { bi + 1 };
                assert(self.buckets@[w].spec_covers(a));
                assert(covered_once(self.buckets@, a));
                let c = self.bucket_index(a);
                assert(self.buckets@[c].spec_covers(a));
                assert(c == w);
                assert(self.buckets@[w].handles@ == Self::same_half(t.buckets@[bi], t.spec_nodes(), a));
                assert(self.spec_nodes() == t.spec_nodes());
            }
            let ghost t2 = *self;
            let ghost na = node.address;
            let r = self.insert(node);
            proof {
                assert(t2.spec_nodes() == t.spec_nodes());
                let d = t.buckets@[bi].depth as int;
                crate::address::lemma_bit_values(na.data@, d);
                let v = bit_at(na.data@, d);
                let w = bi + v;
                assert(t2.buckets@[w].spec_covers(na));
                assert(covered_once(t2.buckets@, na));
                let c = t2.bucket_index(na);
                assert(t2.buckets@[c].spec_covers(na));
                assert(c == w);
                let ob = t.buckets@;
                let tb = t2.buckets@;
                let fb = self.buckets@;
                if fb.len() == ob.len() + 1 {
                    assert forall|i: int| 0 <= i < bi implies same_bucket(#[trigger] fb[i], ob[i]) by {
                        assert(tb[i] == ob[i]);
                        assert(same_bucket(fb[i], tb[i]));
                    }
                    assert forall|i: int| bi < i < ob.len() implies same_bucket(#[trigger] fb[i + 1], ob[i]) by {
                        assert(tb[i + 1] == ob[i]);
                        assert(same_bucket(fb[i + 1], tb[i + 1]));
                    }
                    assert(tb[bi] == lo && tb[bi + 1] == hi);
                    assert(fb[bi].prefix == lo.prefix && fb[bi].depth == lo.depth);
                    assert(fb[bi + 1].prefix == hi.prefix && fb[bi + 1].depth == hi.depth);
                    assert forall|id: Address| #[trigger] fb[bi].spec_covers(id) == lo.spec_covers(id) by {}
                    assert forall|id: Address| #[trigger] fb[bi + 1].spec_covers(id) == hi.spec_covers(id) by {}
                }
            }
            r
        } else {
            match self.buckets[index].find(&self.nodes, &node.address) {
                Some(h) => {
                    self.nodes.set(h, node);
                    proof {
                        Self::lemma_same_addresses_keeps_wf(&t, self);
                        assert(t.spec_nodes()[h as int].address == node.address);
                        assert forall|h2: int|
                            0 <= h2 < t.spec_nodes().len() && #[trigger] t.spec_nodes()[h2].address
                                == node.address implies h2 == h as int by {
                            assert(t.nodes@[h2].address == t.spec_nodes()[h2].address);
                            assert(t.nodes@[h as int].address == t.spec_nodes()[h as int].address);
                        }
                        assert(views(self.nodes@) =~= t.spec_nodes().update(h as int, node@));
                    }
                    Ok(InsertOutcome::Updated)
                },
                None => {
                    proof {
                        assert forall|h2: int|
                            0 <= h2 < t.spec_nodes().len() implies #[trigger] t.spec_nodes()[h2].address
                                != node.address by {
                            if t.spec_nodes()[h2].address == node.address {
                                assert(views(t.nodes@)[h2].address == node.address);
                                let j = choose|j: int|
                                    0 <= j < t.buckets@[bi].handles@.len()
                                        && t.buckets@[bi].handles@[j] as int == h2;
                                assert(views(t.nodes@)[t.buckets@[bi].handles@[j] as int].address
                                    != node.address);
                            }
                        }
                        assert(!t.holds(node.address));
                    }
                    if self.buckets[index].is_full() {
                        Ok(InsertOutcome::Discarded)
                    } else {
                        let h = self.nodes.len();
                        self.nodes.push(node);
                        let mut bucket = self.buckets.remove(index);
                        bucket.add(h);
                        self.buckets.insert(index, bucket);
                        proof {
                            assert(views(self.nodes@) =~= t.spec_nodes().push(node@));
                            Self::lemma_push_keeps_wf(&t, self, bi, h);
                        }
                        Ok(InsertOutcome::Inserted)
                    }
                },
            }
        }
    }

    /// A peer that the table holds sits in the bucket covering it.
    proof fn lemma_not_held_elsewhere(&self, a: Address)
        requires
            self.wf(),
        ensures
            forall|h: int|
                0 <= h < self.nodes@.len() && #[trigger] views(self.nodes@)[h].address == a
                    ==> exists|j: int|
                    0 <= j < self.buckets@[self.bucket_index(a)].handles@.len()
                        && self.buckets@[self.bucket_index(a)].handles@[j] as int == h,
    {
        let bs = self.buckets@;
        let ns = views(self.nodes@);
        assert forall|h: int|
            0 <= h < self.nodes@.len() && #[trigger] ns[h].address == a implies exists|j: int|
                0 <= j < bs[self.bucket_index(a)].handles@.len() && bs[self.bucket_index(
                    a,
                )].handles@[j] as int == h by {
            assert(filed(bs, h));
            let (i, j) = choose|i: int, j: int|
                0 <= i < bs.len() && 0 <= j < bs[i].handles@.len() && #[trigger] bs[i].handles@[j]
                    == h;
            assert(bs[i].wf(ns));
            assert(bs[i].spec_covers(a));
            assert(covered_once(bs, a));
            let c = self.bucket_index(a);
            assert(bs[c].spec_covers(a));
            assert(i == c);
            assert(bs[c].handles@[j] as int == h);
        }
    }

    /// Replacing records by records with the same identifiers keeps the invariant.
    proof fn lemma_same_addresses_keeps_wf(t: &RoutingTable, t2: &RoutingTable)
        requires
            t.wf(),
            t2.buckets@ == t.buckets@,
            t2.nodes@.len() == t.nodes@.len(),
            forall|h: int|
                0 <= h < t.nodes@.len() ==> #[trigger] t2.nodes@[h].address == t.nodes@[h].address,
            t2.k == t.k,
            t2.self_address == t.self_address,
        ensures
            t2.wf(),
    {
        let bs = t.buckets@;
        let ns = views(t.nodes@);
        let ns2 = views(t2.nodes@);
        assert forall|i: int| 0 <= i < bs.len() implies {
            &&& #[trigger] bs[i].wf(ns2)
            &&& bs[i].k == t2.k
            &&& bs[i].depth < bs.len()
        } by {
            assert(bs[i].wf(ns));
            assert forall|j: int| 0 <= j < bs[i].handles@.len() implies {
                &&& #[trigger] bs[i].handles@[j] < ns2.len()
                &&& bs[i].spec_covers(ns2[bs[i].handles@[j] as int].address)
            } by {
                let h = bs[i].handles@[j] as int;
                assert(t2.nodes@[h].address == t.nodes@[h].address);
            }
        }
        assert forall|h: int| 0 <= h < ns2.len() implies #[trigger] filed(bs, h) by {
            assert(filed(t.buckets@, h));
        }
        assert forall|h1: int, h2: int|
            0 <= h1 < ns2.len() && 0 <= h2 < ns2.len() && #[trigger] ns2[h1].address
                == #[trigger] ns2[h2].address implies h1 == h2 by {
            assert(t2.nodes@[h1].address == t.nodes@[h1].address);
            assert(t2.nodes@[h2].address == t.nodes@[h2].address);
            assert(ns[h1].address == ns[h2].address);
        }
        assert forall|h: int| 0 <= h < ns2.len() implies #[trigger] ns2[h].address
            != t2.self_address by {
            assert(t2.nodes@[h].address == t.nodes@[h].address);
            assert(ns[h].address != t.self_address);
        }
    }

    /// Adding a new record to the bucket at `bi`, which covers it and has
    /// room, keeps the invariant.
    proof fn lemma_push_keeps_wf(t: &RoutingTable, t2: &RoutingTable, bi: int, hn: usize)
        requires
            hn == t.nodes@.len(),
            t.wf(),
            0 <= bi < t.buckets@.len(),
            t2.nodes@.len() == t.nodes@.len() + 1,
            forall|h: int| 0 <= h < t.nodes@.len() ==> #[trigger] t2.nodes@[h] == t.nodes@[h],
            t.buckets@[bi].spec_covers(t2.nodes@.last().address),
            t.buckets@[bi].handles@.len() < t.k,
            !t.holds(t2.nodes@.last().address),
            t2.nodes@.last().address != t.self_address,
            t2.buckets@.len() == t.buckets@.len(),
            forall|i: int| 0 <= i < t.buckets@.len() && i != bi ==> t2.buckets@[i] == t.buckets@[i],
            t2.buckets@[bi].k == t.buckets@[bi].k,
            t2.buckets@[bi].prefix == t.buckets@[bi].prefix,
            t2.buckets@[bi].depth == t.buckets@[bi].depth,
            t2.buckets@[bi].handles@ == t.buckets@[bi].handles@.push(hn),
            t2.k == t.k,
            t2.self_address == t.self_address,
        ensures
            t2.wf(),
    {
        let bs = t.buckets@;
        let bs2 = t2.buckets@;
        let ns = views(t.nodes@);
        let ns2 = views(t2.nodes@);
        let n = t.nodes@.len() as int;
        let a = t2.nodes@.last().address;
        assert forall|h: int| 0 <= h < n implies #[trigger] ns2[h] == ns[h] by {
            assert(t2.nodes@[h] == t.nodes@[h]);
        }
        assert(ns2[n].address == a);
        assert(bs2[bi].handles@.len() == bs[bi].handles@.len() + 1);
        assert forall|id: Address| #[trigger] bs2[bi].spec_covers(id) == bs[bi].spec_covers(id) by {}
        assert forall|i: int| 0 <= i < bs2.len() implies {
            &&& #[trigger] bs2[i].wf(ns2)
            &&& bs2[i].k == t2.k
            &&& bs2[i].depth < bs2.len()
        } by {
            assert(bs[i].wf(ns));
            assert forall|j: int| 0 <= j < bs2[i].handles@.len() implies {
                &&& #[trigger] bs2[i].handles@[j] < ns2.len()
                &&& bs2[i].spec_covers(ns2[bs2[i].handles@[j] as int].address)
            } by {
                if i != bi {
                    assert(bs2[i] == bs[i]);
                    let h = bs[i].handles@[j] as int;
                    assert(h < n);
                    assert(ns2[h] == ns[h]);
                } else if j < bs[bi].handles@.len() {
                    assert(bs2[bi].handles@[j] == bs[bi].handles@[j]);
                    let h = bs[bi].handles@[j] as int;
                    assert(h < n);
                    assert(ns2[h] == ns[h]);
                } else {
                    assert(bs2[bi].handles@[j] == n);
                }
            }
            if i != bi {
                assert(bs2[i] == bs[i]);
            }
        }
        assert forall|id: Address| #[trigger] covered_once(bs2, id) by {
            assert(covered_once(bs, id));
            assert forall|i: int| 0 <= i < bs.len() implies #[trigger] bs2[i].spec_covers(id)
                == bs[i].spec_covers(id) by {
                if i != bi {
                    assert(bs2[i] == bs[i]);
                }
            }
            let w = choose|w: int| 0 <= w < bs.len() && #[trigger] bs[w].spec_covers(id);
            assert(bs2[w].spec_covers(id));
        }
        assert forall|h: int| 0 <= h < ns2.len() implies #[trigger] filed(bs2, h) by {
            if h < n {
                assert(filed(bs, h));
                let (i, j) = choose|i: int, j: int|
                    0 <= i < bs.len() && 0 <= j < bs[i].handles@.len() && #[trigger] bs[i].handles@[j]
                        == h;
                if i != bi {
                    assert(bs2[i] == bs[i]);
                }
                assert(bs2[i].handles@[j] == h);
            } else {
                let j = bs[bi].handles@.len() as int;
                assert(bs2[bi].handles@[j] == h);
            }
        }
        assert forall|h1: int, h2: int|
            0 <= h1 < ns2.len() && 0 <= h2 < ns2.len() && #[trigger] t2.nodes@[h1].address
                == #[trigger] t2.nodes@[h2].address implies h1 == h2 by {
            assert(ns2[h1].address == t2.nodes@[h1].address);
            assert(ns2[h2].address == t2.nodes@[h2].address);
            if h1 < n && h2 < n {
                assert(ns[h1].address == ns[h2].address);
            } else if h1 < n {
                assert(t.spec_nodes()[h1].address == a);
            } else if h2 < n {
                assert(t.spec_nodes()[h2].address == a);
            }
        }
        assert forall|h: int| 0 <= h < ns2.len() implies #[trigger] t2.nodes@[h].address
            != t2.self_address by {
            assert(ns2[h].address == t2.nodes@[h].address);
            if h < n {
                assert(t.nodes@[h].address != t.self_address);
            }
        }
        assert(partitions(bs2));
        assert(1 <= bs2.len() <= LENGTH);
        assert(forall|h: int| 0 <= h < ns2.len() ==> #[trigger] filed(bs2, h));
    }

    /// The identifiers of the half of `b` that holds `a`, after a split.
    pub open spec fn same_half(b: NodeBucket, ns: Seq<NodeView>, a: Address) -> Seq<usize> {
        side(b.handles@, ns, b.depth as int, bit_at(a.data@, b.depth as int))
    }

    /// Replacing bucket `bi` by its two halves keeps the invariant.
    proof fn lemma_split_keeps_wf(t: &RoutingTable, t2: &RoutingTable, bi: int, lo: NodeBucket, hi: NodeBucket)
        requires
            t.wf(),
            0 <= bi < t.buckets@.len(),
            t.buckets@.len() < LENGTH,
            t.buckets@[bi].depth < LENGTH,
            lo.k == t.k && hi.k == t.k,
            lo.depth == t.buckets@[bi].depth + 1 && hi.depth == t.buckets@[bi].depth + 1,
            forall|id: Address|
                #[trigger] lo.spec_covers(id) <==> t.buckets@[bi].spec_covers(id) && bit_at(
                    id.data@,
                    t.buckets@[bi].depth as int,
                ) == 0,
            forall|id: Address|
                #[trigger] hi.spec_covers(id) <==> t.buckets@[bi].spec_covers(id) && bit_at(
                    id.data@,
                    t.buckets@[bi].depth as int,
                ) == 1,
            lo.handles@ == side(t.buckets@[bi].handles@, views(t.nodes@), t.buckets@[bi].depth as int, 0),
            hi.handles@ == side(t.buckets@[bi].handles@, views(t.nodes@), t.buckets@[bi].depth as int, 1),
            lo.wf(views(t.nodes@)),
            hi.wf(views(t.nodes@)),
            t2.buckets@ == t.buckets@.update(bi, lo).insert(bi + 1, hi),
            t2.nodes@ == t.nodes@,
            t2.k == t.k,
            t2.self_address == t.self_address,
        ensures
            t2.wf(),
    {
        let bs = t.buckets@;
        let nb = t2.buckets@;
        let ns = views(t.nodes@);
        let b = bs[bi];
        let d = b.depth as int;
        assert(nb.len() == bs.len() + 1);
        assert forall|i: int| 0 <= i < nb.len() implies {
            &&& #[trigger] nb[i].wf(views(t2.nodes@))
            &&& nb[i].k == t2.k
            &&& nb[i].depth < nb.len()
        } by {
            assert(views(t2.nodes@) == ns);
            assert(bs[bi].wf(ns));
            if i < bi {
                assert(nb[i] == bs[i]);
                assert(bs[i].wf(ns));
            } else if i == bi {
                assert(nb[i] == lo);
            } else if i == bi + 1 {
                assert(nb[i] == hi);
            } else {
                assert(nb[i] == bs[i - 1]);
                assert(bs[i - 1].wf(ns));
            }
        }
        assert forall|id: Address| #[trigger] covered_once(nb, id) by {
            assert(covered_once(bs, id));
            if b.spec_covers(id) {
                crate::address::lemma_bit_values(id.data@, d);
                let w = if bit_at(id.data@, d) == 0 { bi } else { bi + 1 };
                assert(nb[w].spec_covers(id));
                assert forall|i: int, j: int|
                    0 <= i < nb.len() && 0 <= j < nb.len() && #[trigger] nb[i].spec_covers(id)
                        && #[trigger] nb[j].spec_covers(id) implies i == j by {
                    if i < bi {
                        assert(bs[i].spec_covers(id));
                    } else if i > bi + 1 {
                        assert(bs[i - 1].spec_covers(id));
                    }
                    if j < bi {
                        assert(bs[j].spec_covers(id));
                    } else if j > bi + 1 {
                        assert(bs[j - 1].spec_covers(id));
                    }
                }
            } else {
                let w = choose|w: int| 0 <= w < bs.len() && #[trigger] bs[w].spec_covers(id);
                assert(w != bi);
                let w2 = if w < bi { w } else { w + 1 };
                assert(nb[w2] == bs[w]);
                assert(nb[w2].spec_covers(id));
                assert forall|i: int, j: int|
                    0 <= i < nb.len() && 0 <= j < nb.len() && #[trigger] nb[i].spec_covers(id)
                        && #[trigger] nb[j].spec_covers(id) implies i == j by {
                    if i < bi {
                        assert(bs[i].spec_covers(id));
                    } else if i > bi + 1 {
                        assert(bs[i - 1].spec_covers(id));
                    }
                    if j < bi {
                        assert(bs[j].spec_covers(id));
                    } else if j > bi + 1 {
                        assert(bs[j - 1].spec_covers(id));
                    }
                }
            }
        }
        assert forall|h: int| 0 <= h < t2.nodes@.len() implies #[trigger] filed(nb, h) by {
            assert(filed(bs, h));
            let (i, j) = choose|i: int, j: int|
                0 <= i < bs.len() && 0 <= j < bs[i].handles@.len() && #[trigger] bs[i].handles@[j]
                    == h;
            if i < bi {
                assert(nb[i].handles@[j] == h);
            } else if i > bi {
                assert(nb[i + 1].handles@[j] == h);
            } else {
                let hs = b.handles@;
                assert(hs[j] == h);
                assert(b.wf(ns));
                assert(hs[j] < ns.len());
                crate::address::lemma_bit_values(ns[h].address.data@, d);
                if bit_at(ns[h].address.data@, d) == 0 {
                    hs.lemma_filter_contains(side_pred(ns, d, 0), j);
                    let j2 = choose|j2: int| 0 <= j2 < lo.handles@.len() && lo.handles@[j2] == h;
                    assert(nb[bi].handles@[j2] == h);
                } else {
                    hs.lemma_filter_contains(side_pred(ns, d, 1), j);
                    let j2 = choose|j2: int| 0 <= j2 < hi.handles@.len() && hi.handles@[j2] == h;
                    assert(nb[bi + 1].handles@[j2] == h);
                }
            }
        }
        assert(partitions(nb));
        assert(1 <= nb.len() <= LENGTH);
        assert(t2.nodes@ == t.nodes@);
    }

    /// A sequence of peers at strictly increasing distances from one target,
    /// all drawn from a set of distinct identifiers, is no longer than that
    /// set; as long when it holds all of it.
    proof fn lemma_prefix_count(r: Seq<NodeView>, ns: Seq<NodeView>, target: Address)
        requires
            nearest_prefix(r, ns, target),
            addresses(ns).no_duplicates(),
        ensures
            r.len() <= ns.len(),
            (forall|h: int| 0 <= h < ns.len() ==> addresses(r).contains(#[trigger] ns[h].address))
                ==> r.len() == ns.len(),
    {
        let ar = addresses(r);
        let an = addresses(ns);
        assert forall|i: int, j: int| 0 <= i < ar.len() && 0 <= j < ar.len() && i != j implies ar[i]
            != ar[j] by {
            if i < j {
                assert(distance(r[i].address, target) < distance(r[j].address, target));
            } else {
                assert(distance(r[j].address, target) < distance(r[i].address, target));
            }
        }
        assert(ar.no_duplicates());
        ar.unique_seq_to_set();
        an.unique_seq_to_set();
        assert forall|a: Address| ar.to_set().contains(a) implies an.to_set().contains(a) by {
            let i = choose|i: int| 0 <= i < ar.len() && ar[i] == a;
            assert(ns.contains(r[i]));
            let h = choose|h: int| 0 <= h < ns.len() && ns[h] == r[i];
            assert(an[h] == a);
        }
        vstd::set_lib::lemma_len_subset(ar.to_set(), an.to_set());
        if forall|h: int| 0 <= h < ns.len() ==> addresses(r).contains(#[trigger] ns[h].address) {
            assert forall|a: Address| an.to_set().contains(a) implies ar.to_set().contains(a) by {
                let h = choose|h: int| 0 <= h < an.len() && an[h] == a;
                assert(addresses(r).contains(ns[h].address));
            }
            assert(ar.to_set() =~= an.to_set());
        }
    }

    /// What `nearest_to` returns: the `k` held peers nearest to `target`, or
    /// all if fewer, nearest first; then, if `include_routers`, bootstrap
    /// peers up to `k` in all.
    pub open spec fn nearest_to_post(&self, target: Address, include_routers: bool, r: Seq<NodeView>) -> bool {
        let ns = self.spec_nodes();
        let g = if self.spec_k() < ns.len() { self.spec_k() } else { ns.len() };
        let extra = if include_routers {
            if self.spec_k() - g < self.spec_routers().len() {
                (self.spec_k() - g) as nat
            } else {
                self.spec_routers().len()
            }
        } else {
            0
        };
        &&& r.len() == g + extra
        &&& is_nearest(r.take(g as int), ns, target, self.spec_k())
        &&& r.skip(g as int) == self.spec_routers().take(extra as int)
    }

    /// The peers nearest to `address`: the `k` held peers nearest to it, by
    /// increasing distance, or all of them if fewer; then, if
    /// `include_routers`, as many bootstrap peers as fill the list up to `k`.
    pub fn nearest_to(&self, address: &Address, include_routers: bool) -> (r: Vec<Node>)
        requires
            self.wf(),
        ensures
            self.nearest_to_post(*address, include_routers, views(r@)),
    {
        let ghost ns = self.spec_nodes();
        proof {
            assert forall|i: int, j: int|
                0 <= i < addresses(ns).len() && 0 <= j < addresses(ns).len() && i != j implies addresses(
                ns,
            )[i] != addresses(ns)[j] by {
                assert(self.nodes@[i].address == ns[i].address);
                assert(self.nodes@[j].address == ns[j].address);
            }
        }
        let mut out: Vec<Node> = Vec::new();
        let mut last: Option<Address> = None;
        let mut done = false;
        while out.len() < self.k && !done
            invariant
                self.wf(),
                ns == self.spec_nodes(),
                addresses(ns).no_duplicates(),
                out@.len() <= self.k,
                nearest_prefix(views(out@), ns, *address),
                last is None <==> out@.len() == 0,
                last matches Some(l) ==> l == out@.last().address,
                done ==> forall|h: int|
                    0 <= h < ns.len() ==> addresses(views(out@)).contains(#[trigger] ns[h].address),
            decreases self.k - out@.len(), if done { 0int } else { 1int },
        {
            let mut best: Option<usize> = None;
            let mut h: usize = 0;
            while h < self.nodes.len()
                invariant
                    self.wf(),
                    ns == self.spec_nodes(),
                    h <= ns.len(),
                    best matches Some(b) ==> b < ns.len() && (last matches Some(l) ==> distance(
                        ns[b as int].address,
                        *address,
                    ) > distance(l, *address)),
                    best matches Some(b) ==> forall|x: int|
                        0 <= x < h && (last matches Some(l) ==> distance(
                            #[trigger] ns[x].address,
                            *address,
                        ) > distance(l, *address)) ==> distance(ns[b as int].address, *address)
                            <= distance(ns[x].address, *address),
                    best is None ==> forall|x: int|
                        0 <= x < h ==> (last matches Some(l) && distance(
                            #[trigger] ns[x].address,
                            *address,
                        ) <= distance(l, *address)),
                decreases ns.len() - h,
            {
                let candidate = self.nodes[h].address;
                let farther = match last {
                    None => true,
                    Some(l) => matches!(address.compare_distances(&candidate, &l), Ordering::Greater),
                };
                if farther {
                    match best {
                        None => {
                            best = Some(h);
                        },
                        Some(b) => {
                            if matches!(
                                address.compare_distances(&candidate, &self.nodes[b].address),
                                Ordering::Less
                            ) {
                                best = Some(h);
                            }
                        },
                    }
                }
                h = h + 1;
            }
            match best {
                None => {
                    proof {
                        assert forall|x: int| 0 <= x < ns.len() implies addresses(
                            views(out@),
                        ).contains(#[trigger] ns[x].address) by {
                            assert(last is Some);
                            assert(views(out@).len() > 0);
                        }
                    }
                    done = true;
                },
                Some(b) => {
                    let ghost old_out = views(out@);
                    let picked = self.nodes[b].duplicate();
                    let picked_address = picked.address;
                    out.push(picked);
                    proof {
                        let o = views(out@);
                        assert(o =~= old_out.push(ns[b as int]));
                        assert(ns.contains(o.last()));
                        assert forall|x: int|
                            0 <= x < ns.len() && o.len() > 0 && distance(
                                #[trigger] ns[x].address,
                                *address,
                            ) <= distance(o.last().address, *address) implies addresses(o).contains(
                            ns[x].address,
                        ) by {
                            if old_out.len() > 0 && distance(ns[x].address, *address) <= distance(
                                old_out.last().address,
                                *address,
                            ) {
                                let i = choose|i: int|
                                    0 <= i < addresses(old_out).len() && addresses(old_out)[i]
                                        == ns[x].address;
                                assert(addresses(o)[i] == ns[x].address);
                            } else {
                                assert(distance(ns[b as int].address, *address) <= distance(
                                    ns[x].address,
                                    *address,
                                ));
                                lemma_distance_injective(ns[b as int].address, ns[x].address, *address);
                                assert(addresses(o)[o.len() - 1] == ns[x].address);
                            }
                        }
                        assert forall|i: int, j: int| 0 <= i < j < o.len() implies distance(
                            #[trigger] o[i].address,
                            *address,
                        ) < distance(#[trigger] o[j].address, *address) by {
                            if j < o.len() - 1 {
                                assert(o[i] == old_out[i] && o[j] == old_out[j]);
                            } else if i < o.len() - 2 {
                                assert(o[i] == old_out[i]);
                                assert(distance(old_out[i].address, *address) < distance(
                                    old_out.last().address,
                                    *address,
                                ));
                            }
                        }
                        assert forall|i: int| 0 <= i < o.len() implies #[trigger] ns.contains(o[i]) by {
                            if i < o.len() - 1 {
                                assert(o[i] == old_out[i]);
                            }
                        }
                    }
                    last = Some(picked_address);
                },
            }
        }
        proof {
            Self::lemma_prefix_count(views(out@), ns, *address);
            assert(views(out@).take(out@.len() as int) =~= views(out@));
        }
        let ghost g = out@.len();
        let ghost genuine = views(out@);
        if include_routers {
            let mut i: usize = 0;
            while out.len() < self.k && i < self.routers.len()
                invariant
                    out@.len() == g + i,
                    g <= out@.len() <= self.k,
                    i <= self.routers@.len(),
                    views(out@).skip(g as int) == self.spec_routers().take(i as int),
                    views(out@).take(g as int) == genuine,
                decreases self.routers@.len() - i,
            {
                let ghost before = views(out@);
                out.push(self.routers[i].duplicate());
                i = i + 1;
                proof {
                    assert(views(out@).skip(g as int) =~= self.spec_routers().take(i as int));
                    assert(views(out@).take(g as int) =~= before.take(g as int));
                    assert(views(out@).take(g as int) == genuine);
                }
            }
        }
        proof {
            assert(views(out@).take(g as int) == genuine);
            if !include_routers {
                assert(views(out@).skip(g as int) =~= self.spec_routers().take(0));
            }
        }
        out
    }

    /// The peers nearest to the table's own identifier, bootstrap peers
    /// filling up the list.
    pub fn nearest(&self) -> (r: Vec<Node>)
        requires
            self.wf(),
        ensures
            ({
                let ns = self.spec_nodes();
                let g = if self.spec_k() < ns.len() { self.spec_k() } else { ns.len() };
                let extra = if self.spec_k() - g < self.spec_routers().len() {
                    (self.spec_k() - g) as nat
                } else {
                    self.spec_routers().len()
                };
                &&& r@.len() == g + extra
                &&& is_nearest(views(r@).take(g as int), ns, self.spec_self_address(), self.spec_k())
                &&& views(r@).skip(g as int) == self.spec_routers().take(extra as int)
            }),
    {
        let self_address = self.self_address;
        self.nearest_to(&self_address, true)
    }

    /// The held peers that are questionable at time `now`, each once, no
    /// bootstrap peer among them. They come in the order the peers were first
    /// inserted; callers probe them all and rely on no particular order.
    pub fn questionable_nodes(&self, now: u64) -> (r: Vec<Node>)
        ensures
            views(r@) == self.spec_nodes().filter(|v: NodeView| questionable(v, now)),
    {
        let ghost ns = self.spec_nodes();
        let ghost p = |v: NodeView| questionable(v, now);
        let mut out: Vec<Node> = Vec::new();
        let mut h: usize = 0;
        while h < self.nodes.len()
            invariant
                ns == self.spec_nodes(),
                p == (|v: NodeView| questionable(v, now)),
                h <= ns.len(),
                views(out@) == ns.take(h as int).filter(p),
            decreases ns.len() - h,
        {
            let ghost before = views(out@);
            if self.nodes[h].is_questionable(now) {
                out.push(self.nodes[h].duplicate());
                proof {
                    assert(views(out@) =~= before.push(ns[h as int]));
                }
            }
            proof {
                let t = ns.take(h + 1);
                reveal(Seq::filter);
                assert(t.drop_last() =~= ns.take(h as int));
                assert(t.last() == ns[h as int]);
            }
            h = h + 1;
        }
        proof {
            assert(ns.take(ns.len() as int) =~= ns);
        }
        out
    }

    /// Position of the record of the peer named `address`, if held.
    fn position_of(&self, address: &Address) -> (r: Option<usize>)
        requires
            self.wf(),
        ensures
            r matches Some(h) ==> h < self.spec_nodes().len() && self.spec_nodes()[h as int].address
                == *address,
            r is None ==> !self.holds(*address),
    {
        let index = self.bucket_for(address);
        proof {
            assert(self.buckets@[index as int].wf(views(self.nodes@)));
            self.lemma_not_held_elsewhere(*address);
        }
        let found = self.buckets[index].find(&self.nodes, address);
        proof {
            if found is None {
                assert forall|h: int| 0 <= h < self.spec_nodes().len() implies #[trigger] self.spec_nodes()[h].address
                    != *address by {
                    if self.spec_nodes()[h].address == *address {
                        assert(views(self.nodes@)[h].address == *address);
                        let j = choose|j: int|
                            0 <= j < self.buckets@[index as int].handles@.len()
                                && self.buckets@[index as int].handles@[j] as int == h;
                        assert(views(self.nodes@)[self.buckets@[index as int].handles@[j] as int].address
                            != *address);
                    }
                }
            } else {
                let h = found->Some_0;
                let j = choose|j: int|
                    0 <= j < self.buckets@[index as int].handles@.len()
                        && self.buckets@[index as int].handles@[j] == h;
                assert(self.buckets@[index as int].handles@[j] < views(self.nodes@).len());
            }
        }
        found
    }

    /// A copy of the record of the peer named `address`, if held.
    pub fn find_node(&self, address: &Address) -> (r: Option<Node>)
        requires
            self.wf(),
        ensures
            r is Some <==> self.holds(*address),
            r matches Some(n) ==> exists|h: int|
                0 <= h < self.spec_nodes().len() && self.spec_nodes()[h] == n@ && n.address
                    == *address,
    {
        match self.position_of(address) {
            Some(h) => Some(self.nodes[h].duplicate()),
            None => None,
        }
    }

    /// The peer named `address` answered at time `now`; false if it is not held.
    pub fn record_success(&mut self, address: &Address, now: u64) -> (r: bool)
        requires
            old(self).wf(),
        ensures
            final(self).wf(),
            r == old(self).holds(*address),
            final(self).spec_buckets() == old(self).spec_buckets(),
            final(self).spec_routers() == old(self).spec_routers(),
            final(self).spec_k() == old(self).spec_k(),
            final(self).spec_self_address() == old(self).spec_self_address(),
            !r ==> final(self).spec_nodes() == old(self).spec_nodes(),
            forall|h: int|
                0 <= h < old(self).spec_nodes().len() && #[trigger] old(self).spec_nodes()[h].address
                    == *address ==> final(self).spec_nodes() == old(self).spec_nodes().update(
                    h,
                    NodeView { last_seen: now, failures: 0, ..old(self).spec_nodes()[h] },
                ),
    {
        match self.position_of(address) {
            Some(h) => {
                let ghost t = *self;
                let mut n = self.nodes[h].duplicate();
                n.record_success(now);
                self.nodes.set(h, n);
                proof {
                    Self::lemma_same_addresses_keeps_wf(&t, self);
                    assert forall|h2: int|
                        0 <= h2 < t.spec_nodes().len() && #[trigger] t.spec_nodes()[h2].address
                            == *address implies h2 == h as int by {
                        assert(t.nodes@[h2].address == t.spec_nodes()[h2].address);
                        assert(t.nodes@[h as int].address == t.spec_nodes()[h as int].address);
                    }
                    assert(views(self.nodes@) =~= t.spec_nodes().update(
                        h as int,
                        NodeView { last_seen: now, failures: 0, ..t.spec_nodes()[h as int] },
                    ));
                }
                true
            },
            None => false,
        }
    }

    /// A query to the peer named `address` went unanswered; false if it is
    /// not held.
    pub fn record_failure(&mut self, address: &Address) -> (r: bool)
        requires
            old(self).wf(),
        ensures
            final(self).wf(),
            r == old(self).holds(*address),
            final(self).spec_buckets() == old(self).spec_buckets(),
            final(self).spec_routers() == old(self).spec_routers(),
            final(self).spec_k() == old(self).spec_k(),
            final(self).spec_self_address() == old(self).spec_self_address(),
            !r ==> final(self).spec_nodes() == old(self).spec_nodes(),
            forall|h: int|
                0 <= h < old(self).spec_nodes().len() && #[trigger] old(self).spec_nodes()[h].address
                    == *address ==> final(self).spec_nodes() == old(self).spec_nodes().update(
                    h,
                    NodeView {
                        failures: if old(self).spec_nodes()[h].failures < u32::MAX {
                            (old(self).spec_nodes()[h].failures + 1) as u32
                        } else {
                            u32::MAX
                        },
                        ..old(self).spec_nodes()[h]
                    },
                ),
    {
        match self.position_of(address) {
            Some(h) => {
                let ghost t = *self;
                let mut n = self.nodes[h].duplicate();
                n.record_failure();
                self.nodes.set(h, n);
                proof {
                    Self::lemma_same_addresses_keeps_wf(&t, self);
                    assert forall|h2: int|
                        0 <= h2 < t.spec_nodes().len() && #[trigger] t.spec_nodes()[h2].address
                            == *address implies h2 == h as int by {
                        assert(t.nodes@[h2].address == t.spec_nodes()[h2].address);
                        assert(t.nodes@[h as int].address == t.spec_nodes()[h as int].address);
                    }
                    assert(views(self.nodes@) =~= t.spec_nodes().update(h as int, n@));
                }
                true
            },
            None => false,
        }
    }

    /// No bucket of a well-formed table holds more than `k` peers; since
    /// `new` and `insert` keep the table well-formed, this holds after any
    /// sequence of insertions and splits.
    pub proof fn lemma_bucket_capacity(&self)
        requires
            self.wf(),
        ensures
            forall|i: int|
                0 <= i < self.spec_buckets().len() ==> #[trigger] self.spec_buckets()[i].handles@.len()
                    <= self.spec_k(),
    {
        assert forall|i: int| 0 <= i < self.spec_buckets().len() implies #[trigger] self.spec_buckets()[i].handles@.len()
            <= self.spec_k() by {
            assert(self.buckets@[i].wf(views(self.nodes@)));
        }
    }

    /// The peer at store position `h` sits in the bucket covering it.
    pub open spec fn in_own_bucket(&self, h: int) -> bool {
        let b = self.spec_buckets()[self.bucket_index(self.spec_nodes()[h].address)];
        exists|j: int| 0 <= j < b.handles@.len() && b.handles@[j] as int == h
    }

    /// What a well-formed table guarantees, and `new` and `insert` keep:
    /// between 1 and 160 buckets; each of capacity `k`, no deeper than the
    /// bucket count allows, and holding only positions of peers in its own
    /// range; every held peer sits in the bucket covering it; held peers
    /// have distinct identifiers, none the table's own.
    pub proof fn lemma_structure(&self)
        requires
            self.wf(),
        ensures
            1 <= self.spec_buckets().len() <= LENGTH,
            forall|i: int|
                0 <= i < self.spec_buckets().len() ==> {
                    &&& (#[trigger] self.spec_buckets()[i]).k == self.spec_k()
                    &&& self.spec_buckets()[i].depth < self.spec_buckets().len()
                    &&& self.spec_buckets()[i].wf(self.spec_nodes())
                },
            forall|h: int| 0 <= h < self.spec_nodes().len() ==> #[trigger] self.in_own_bucket(h),
            forall|h1: int, h2: int|
                0 <= h1 < self.spec_nodes().len() && 0 <= h2 < self.spec_nodes().len()
                    && #[trigger] self.spec_nodes()[h1].address == #[trigger] self.spec_nodes()[h2].address
                    ==> h1 == h2,
            forall|h: int|
                0 <= h < self.spec_nodes().len() ==> #[trigger] self.spec_nodes()[h].address
                    != self.spec_self_address(),
    {
        let ns = self.spec_nodes();
        assert forall|i: int| 0 <= i < self.spec_buckets().len() implies {
            &&& (#[trigger] self.spec_buckets()[i]).k == self.spec_k()
            &&& self.spec_buckets()[i].depth < self.spec_buckets().len()
            &&& self.spec_buckets()[i].wf(self.spec_nodes())
        } by {
            assert(self.buckets@[i].wf(views(self.nodes@)));
        }
        assert forall|h: int| 0 <= h < ns.len() implies #[trigger] self.in_own_bucket(h) by {
            self.lemma_not_held_elsewhere(ns[h].address);
            assert(views(self.nodes@)[h].address == ns[h].address);
        }
        assert forall|h1: int, h2: int|
            0 <= h1 < ns.len() && 0 <= h2 < ns.len() && #[trigger] ns[h1].address
                == #[trigger] ns[h2].address implies h1 == h2 by {
            assert(self.nodes@[h1].address == ns[h1].address);
            assert(self.nodes@[h2].address == ns[h2].address);
        }
        assert forall|h: int| 0 <= h < ns.len() implies #[trigger] ns[h].address
            != self.spec_self_address() by {
            assert(self.nodes@[h].address == ns[h].address);
        }
    }

    /// In a well-formed table exactly one bucket covers each identifier;
    /// since `new` and `insert` keep the table well-formed, this holds after
    /// any sequence of insertions and splits.
    pub proof fn lemma_coverage(&self, id: Address)
        requires
            self.wf(),
        ensures
            exists|i: int| 0 <= i < self.spec_buckets().len() && self.spec_buckets()[i].spec_covers(id),
            forall|i: int, j: int|
                0 <= i < self.spec_buckets().len() && 0 <= j < self.spec_buckets().len()
                    && self.spec_buckets()[i].spec_covers(id) && self.spec_buckets()[j].spec_covers(id)
                    ==> i == j,
    {
        assert(covered_once(self.buckets@, id));
        let w = choose|w: int| 0 <= w < self.buckets@.len() && #[trigger] self.buckets@[w].spec_covers(id);
        assert(self.spec_buckets()[w].spec_covers(id));
    }

    fn buckets_maxed(&self) -> (r: bool)
        ensures
            r == (self.spec_buckets().len() >= LENGTH),
    {
        self.buckets.len() >= LENGTH
    }
}

} // verus!
