use crate::address::{
    be_value, bit_at, bits_value, lemma_address_ext, lemma_be_value_bits, lemma_bits_value_block,
    lemma_bit_values, lemma_bits_value_injective, same_prefix, Address, LENGTH,
};
use vstd::arithmetic::power2::pow2;
use crate::node::{views, Node, NodeView};
use vstd::prelude::*;

verus! {

broadcast use vstd::array::group_array_axioms;

/// A bounded set of peers whose identifiers share the bucket's prefix: the
/// first `depth` bits of `prefix`. These identifiers form one contiguous range
/// of the identifier space, of size 2^(160 - depth).
///
/// Peer records live in a store owned by the routing table; the bucket holds
/// their positions in that store.
pub struct NodeBucket {
    pub k: usize,
    pub prefix: Address,
    pub depth: usize,
    pub handles: Vec<usize>,
}

/// Whether the first `n` bits of `id` are those of `prefix`.
pub open spec fn in_range(prefix: Address, depth: int, id: Address) -> bool {
    same_prefix(id.data@, prefix.data@, depth)
}

/// The handles of `hs` whose peers have bit `d` equal to `v`.
pub open spec fn side(hs: Seq<usize>, nodes: Seq<NodeView>, d: int, v: u8) -> Seq<usize> {
    hs.filter(side_pred(nodes, d, v))
}

/// Whether the peer at a store position has bit `d` equal to `v`.
pub open spec fn side_pred(nodes: Seq<NodeView>, d: int, v: u8) -> spec_fn(usize) -> bool {
    |h: usize| bit_at(nodes[h as int].address.data@, d) == v
}

proof fn lemma_byte_set(x: u8, j: u8, k: u8)
    requires
        j < 8,
        k < 8,
    ensures
        ((x | (0x80u8 >> k)) >> ((7u8 - j) as u8)) & 1u8 == if j == k {
            1u8
        } else {
            (x >> ((7u8 - j) as u8)) & 1u8
        },
        ((x & !(0x80u8 >> k)) >> ((7u8 - j) as u8)) & 1u8 == if j == k {
            0u8
        } else {
            (x >> ((7u8 - j) as u8)) & 1u8
        },
{
    assert(j < 8 && k < 8 ==> ((x | (0x80u8 >> k)) >> ((7u8 - j) as u8)) & 1u8 == if j == k {
        1u8
    } else {
        (x >> ((7u8 - j) as u8)) & 1u8
    }) by (bit_vector);
    assert(j < 8 && k < 8 ==> ((x & !(0x80u8 >> k)) >> ((7u8 - j) as u8)) & 1u8 == if j == k {
        0u8
    } else {
        (x >> ((7u8 - j) as u8)) & 1u8
    }) by (bit_vector);
}

/// `a` with bit `d` set to `v`.
fn with_bit(a: &Address, d: usize, v: bool) -> (r: Address)
    requires
        d < LENGTH,
    ensures
        forall|i: int| 0 <= i < LENGTH && i != d ==> bit_at(r.data@, i) == bit_at(a.data@, i),
        bit_at(r.data@, d as int) == (if v {
            1u8
        } else {
            0u8
        }),
{
    let mut data = a.data;
    let byte = d / 8;
    let k = (d % 8) as u8;
    let old_byte = data[byte];
    if v {
        data[byte] = old_byte | (0x80u8 >> k);
    } else {
        data[byte] = old_byte & !(0x80u8 >> k);
    }
    proof {
        assert forall|i: int| 0 <= i < LENGTH && i != d implies bit_at(data@, i) == bit_at(
            a.data@,
            i,
        ) by {
            if i / 8 == byte as int {
                lemma_byte_set(old_byte, (i % 8) as u8, k);
            } else {
                assert(data@[i / 8] == a.data@[i / 8]);
            }
        }
        lemma_byte_set(old_byte, k, k);
    }
    Address { data }
}

impl NodeBucket {
    /// Whether the bucket's range holds `id`.
    pub open spec fn spec_covers(&self, id: Address) -> bool {
        in_range(self.prefix, self.depth as int, id)
    }

    /// The least identifier value in the bucket's range.
    pub open spec fn range_low(&self) -> nat {
        bits_value(self.prefix.data@, self.depth as int) * pow2((LENGTH - self.depth) as nat)
    }

    /// One past the greatest identifier value in the bucket's range.
    pub open spec fn range_high(&self) -> nat {
        self.range_low() + pow2((LENGTH - self.depth) as nat)
    }

    /// A bucket covers exactly the identifiers whose big-endian value lies in
    /// the half-open range `[range_low, range_high)`.
    pub proof fn lemma_covers_range(&self, id: Address)
        requires
            self.depth <= LENGTH,
        ensures
            self.spec_covers(id) <==> self.range_low() <= be_value(id.data@) < self.range_high(),
    {
        let d = self.depth as int;
        let w = pow2((LENGTH - self.depth) as nat);
        vstd::arithmetic::power2::lemma_pow2_pos((LENGTH - self.depth) as nat);
        lemma_be_value_bits(id.data@);
        lemma_bits_value_block(id.data@, d, 160);
        lemma_bits_value_injective(id.data@, self.prefix.data@, d);
        let v = be_value(id.data@);
        let i = bits_value(id.data@, d);
        let p = bits_value(self.prefix.data@, d);
        assert(v == bits_value(id.data@, 160));
        assert((p * w <= v && v < p * w + w) == (i == p)) by (nonlinear_arith)
            requires
                i * w <= v,
                v < (i + 1) * w,
                w > 0,
        {
            if i < p {
                assert((i + 1) * w <= p * w);
            } else if i > p {
                assert((p + 1) * w <= i * w);
            }
        }
    }

    /// The bucket is within capacity and holds only positions of peers in
    /// its range.
    pub open spec fn wf(&self, nodes: Seq<NodeView>) -> bool {
        &&& self.depth <= LENGTH
        &&& self.handles@.len() <= self.k
        &&& forall|j: int|
            0 <= j < self.handles@.len() ==> {
                &&& #[trigger] self.handles@[j] < nodes.len()
                &&& self.spec_covers(nodes[self.handles@[j] as int].address)
            }
    }

    /// An empty bucket of capacity `k` covering the whole identifier space.
    pub fn new(k: usize) -> (r: NodeBucket)
        ensures
            r.k == k,
            r.depth == 0,
            r.handles@.len() == 0,
            forall|id: Address| r.spec_covers(id),
    {
        NodeBucket { k, prefix: Address::null(), depth: 0, handles: Vec::new() }
    }

    /// Whether the bucket's range holds `id`.
    pub fn covers(&self, id: &Address) -> (r: bool)
        requires
            self.depth <= LENGTH,
        ensures
            r == self.spec_covers(*id),
    {
        let mut i: usize = 0;
        while i < self.depth
            invariant
                self.depth <= LENGTH,
                i <= self.depth,
                same_prefix(id.data@, self.prefix.data@, i as int),
            decreases self.depth - i,
        {
            if id.bit(i) != self.prefix.bit(i) {
                return false;
            }
            i = i + 1;
        }
        true
    }

    /// Whether the bucket holds `k` peers.
    pub fn is_full(&self) -> (r: bool)
        ensures
            r == (self.handles@.len() >= self.k),
    {
        self.handles.len() >= self.k
    }

    /// Number of peers in the bucket.
    pub fn len(&self) -> (r: usize)
        ensures
            r == self.handles@.len(),
    {
        self.handles.len()
    }

    /// The store position of the bucket's peer named `address`, if any.
    pub fn find(&self, nodes: &Vec<Node>, address: &Address) -> (r: Option<usize>)
        requires
            self.wf(views(nodes@)),
        ensures
            r matches Some(h) ==> self.handles@.contains(h) && views(nodes@)[h as int].address
                == *address,
            r is None ==> forall|j: int|
                0 <= j < self.handles@.len() ==> views(nodes@)[#[trigger] self.handles@[j] as int].address
                    != *address,
    {
        let mut j: usize = 0;
        while j < self.handles.len()
            invariant
                self.wf(views(nodes@)),
                j <= self.handles@.len(),
                forall|i: int|
                    0 <= i < j ==> views(nodes@)[#[trigger] self.handles@[i] as int].address != *address,
            decreases self.handles@.len() - j,
        {
            let h = self.handles[j];
            assert(h < views(nodes@).len());
            if nodes[h].address == *address {
                assert(self.handles@[j as int] == h);
                proof {
                    lemma_address_ext(views(nodes@)[h as int].address, *address);
                }
                return Some(h);
            }
            j = j + 1;
        }
        None
    }

    /// Adds the peer at store position `h`.
    pub fn add(&mut self, h: usize)
        requires
            old(self).handles@.len() < old(self).k,
        ensures
            final(self).handles@ == old(self).handles@.push(h),
            final(self).k == old(self).k,
            final(self).prefix == old(self).prefix,
            final(self).depth == old(self).depth,
    {
        self.handles.push(h);
    }

    /// Halves the bucket's range: the first half holds the identifiers whose
    /// bit `depth` is 0, the second those whose bit `depth` is 1. Each peer
    /// goes to the half whose range holds it.
    pub fn split(&self, nodes: &Vec<Node>) -> (r: (NodeBucket, NodeBucket))
        requires
            self.wf(views(nodes@)),
            self.depth < LENGTH,
        ensures
            r.0.k == self.k && r.1.k == self.k,
            r.0.depth == self.depth + 1 && r.1.depth == self.depth + 1,
            forall|id: Address|
                #[trigger] r.0.spec_covers(id) <==> self.spec_covers(id) && bit_at(
                    id.data@,
                    self.depth as int,
                ) == 0,
            forall|id: Address|
                #[trigger] r.1.spec_covers(id) <==> self.spec_covers(id) && bit_at(
                    id.data@,
                    self.depth as int,
                ) == 1,
            r.0.handles@ == side(self.handles@, views(nodes@), self.depth as int, 0),
            r.1.handles@ == side(self.handles@, views(nodes@), self.depth as int, 1),
            r.0.wf(views(nodes@)),
            r.1.wf(views(nodes@)),
    {
        let d = self.depth;
        let low_prefix = with_bit(&self.prefix, d, false);
        let high_prefix = with_bit(&self.prefix, d, true);
        let ghost nd = d as int;
        assert forall|id: Address|
            in_range(low_prefix, nd + 1, id) <==> self.spec_covers(id) && bit_at(id.data@, nd)
                == 0 by {
            if in_range(low_prefix, nd + 1, id) {
                assert forall|i: int| 0 <= i < nd implies #[trigger] bit_at(id.data@, i)
                    == bit_at(self.prefix.data@, i) by {
                    assert(bit_at(id.data@, i) == bit_at(low_prefix.data@, i));
                }
                assert(bit_at(id.data@, nd) == bit_at(low_prefix.data@, nd));
            }
        }
        assert forall|id: Address|
            in_range(high_prefix, nd + 1, id) <==> self.spec_covers(id) && bit_at(id.data@, nd)
                == 1 by {
            if in_range(high_prefix, nd + 1, id) {
                assert forall|i: int| 0 <= i < nd implies #[trigger] bit_at(id.data@, i)
                    == bit_at(self.prefix.data@, i) by {
                    assert(bit_at(id.data@, i) == bit_at(high_prefix.data@, i));
                }
                assert(bit_at(id.data@, nd) == bit_at(high_prefix.data@, nd));
            }
        }
        let mut low: Vec<usize> = Vec::new();
        let mut high: Vec<usize> = Vec::new();
        let ghost hs = self.handles@;
        let mut j: usize = 0;
        while j < self.handles.len()
            invariant
                self.wf(views(nodes@)),
                d == self.depth,
                nd == d as int,
                d < LENGTH,
                hs == self.handles@,
                j <= hs.len(),
                low@ == side(hs.take(j as int), views(nodes@), nd, 0),
                high@ == side(hs.take(j as int), views(nodes@), nd, 1),
            decreases hs.len() - j,
        {
            let h = self.handles[j];
            assert(h < views(nodes@).len());
            let addr = nodes[h].address;
            let b = addr.bit(d);
            proof {
                let t = hs.take(j + 1);
                reveal(Seq::filter);
                assert(t.drop_last() =~= hs.take(j as int));
                assert(t.last() == h);
                assert(views(nodes@)[h as int].address == addr);
                assert(side_pred(views(nodes@), nd, 0)(h) == (b == 0));
                assert(side_pred(views(nodes@), nd, 1)(h) == (b == 1));
                assert(t.filter(side_pred(views(nodes@), nd, 0)) == if b == 0 {
                    t.drop_last().filter(side_pred(views(nodes@), nd, 0)).push(h)
                } else {
                    t.drop_last().filter(side_pred(views(nodes@), nd, 0))
                });
                assert(side(t, views(nodes@), nd, 0) == if b == 0 {
                    side(hs.take(j as int), views(nodes@), nd, 0).push(h)
                } else {
                    side(hs.take(j as int), views(nodes@), nd, 0)
                });
                assert(side(t, views(nodes@), nd, 1) == if b == 1 {
                    side(hs.take(j as int), views(nodes@), nd, 1).push(h)
                } else {
                    side(hs.take(j as int), views(nodes@), nd, 1)
                });
            }
            if b == 0 {
                low.push(h);
            } else {
                proof {
                    lemma_bit_values(addr.data@, nd);
                }
                high.push(h);
            }
            j = j + 1;
        }
        assert(hs.take(hs.len() as int) =~= hs);
        let ghost p0 = side_pred(views(nodes@), nd, 0);
        let ghost p1 = side_pred(views(nodes@), nd, 1);
        proof {
            hs.lemma_filter_len(p0);
            hs.lemma_filter_len(p1);
            assert forall|i: int| 0 <= i < low@.len() implies #[trigger] low@[i] < views(nodes@).len()
                && in_range(low_prefix, nd + 1, views(nodes@)[low@[i] as int].address) by {
                hs.lemma_filter_pred(p0, i);
                hs.lemma_filter_contains_rev(p0, low@[i]);
            }
            assert forall|i: int| 0 <= i < high@.len() implies #[trigger] high@[i]
                < views(nodes@).len() && in_range(high_prefix, nd + 1, views(nodes@)[high@[i] as int].address) by {
                hs.lemma_filter_pred(p1, i);
                hs.lemma_filter_contains_rev(p1, high@[i]);
            }
        }
        (
            NodeBucket { k: self.k, prefix: low_prefix, depth: d + 1, handles: low },
            NodeBucket { k: self.k, prefix: high_prefix, depth: d + 1, handles: high },
        )
    }
}

} // verus!
