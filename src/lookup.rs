use crate::address::{distance, lemma_address_ext, Address};
use crate::node::{views, Node, NodeView};
use std::cmp::Ordering;
use vstd::prelude::*;

verus! {

/// A peer met during a lookup, with what became of querying it.
pub struct Candidate {
    pub node: Node,
    pub queried: bool,
    pub answered: bool,
    pub failed: bool,
}

/// What a candidate holds, as plain values.
pub struct CandidateView {
    pub node: NodeView,
    pub queried: bool,
    pub answered: bool,
    pub failed: bool,
}

impl View for Candidate {
    type V = CandidateView;

    open spec fn view(&self) -> CandidateView {
        CandidateView {
            node: self.node@,
            queried: self.queried,
            answered: self.answered,
            failed: self.failed,
        }
    }
}

/// The plain values of a sequence of candidates.
pub open spec fn candidate_views(s: Seq<Candidate>) -> Seq<CandidateView> {
    s.map_values(|c: Candidate| c@)
}

/// The peers of a sequence of candidates.
pub open spec fn peers_of(s: Seq<CandidateView>) -> Seq<NodeView> {
    s.map_values(|c: CandidateView| c.node)
}

/// Candidates not yet queried.
pub open spec fn unqueried(s: Seq<CandidateView>) -> Seq<CandidateView> {
    s.filter(|c: CandidateView| !c.queried)
}

/// Candidates that answered and did not later fail.
pub open spec fn confirmed(s: Seq<CandidateView>) -> Seq<CandidateView> {
    s.filter(|c: CandidateView| c.answered && !c.failed)
}

/// Candidates whose query did not fail.
pub open spec fn live(s: Seq<CandidateView>) -> Seq<CandidateView> {
    s.filter(|c: CandidateView| !c.failed)
}

/// The first `n` elements of `s`, or all of them if fewer.
pub open spec fn first<A>(s: Seq<A>, n: nat) -> Seq<A> {
    if n < s.len() {
        s.take(n as int)
    } else {
        s
    }
}

/// Candidates ordered by strictly increasing distance to `target`.
pub open spec fn ordered(s: Seq<CandidateView>, target: Address) -> bool {
    forall|i: int, j: int|
        0 <= i < j < s.len() ==> distance(#[trigger] s[i].node.address, target) < distance(
            #[trigger] s[j].node.address,
            target,
        )
}

/// Filtering the first `i` elements gives a prefix of filtering them all.
proof fn lemma_filter_prefix<A>(s: Seq<A>, p: spec_fn(A) -> bool, i: int)
    requires
        0 <= i <= s.len(),
    ensures
        s.take(i).filter(p).len() <= s.filter(p).len(),
        s.filter(p).take(s.take(i).filter(p).len() as int) == s.take(i).filter(p),
    decreases s.len(),
{
    reveal(Seq::filter);
    if i == s.len() {
        assert(s.take(i) =~= s);
        assert(s.filter(p).take(s.filter(p).len() as int) =~= s.filter(p));
    } else {
        let s2 = s.drop_last();
        assert(s.take(i) =~= s2.take(i));
        lemma_filter_prefix(s2, p, i);
        let n = s2.take(i).filter(p).len() as int;
        assert(s.filter(p).take(n) =~= s2.filter(p).take(n));
    }
}

/// An iterative search for the peers nearest to a target. Each round queries
/// the best candidates not yet queried; answers bring new candidates. The
/// search ends after `max_rounds` rounds, when no candidate is left to query,
/// or when a round brought no live candidate closer than the best one known
/// when it began.
pub struct Lookup {
    target: Address,
    k: usize,
    alpha: usize,
    max_rounds: u32,
    rounds: u32,
    candidates: Vec<Candidate>,
    best: Option<Address>,
}

impl Lookup {
    pub closed spec fn spec_target(&self) -> Address {
        self.target
    }

    pub closed spec fn spec_k(&self) -> nat {
        self.k as nat
    }

    /// How many queries a round sends at most.
    pub closed spec fn spec_alpha(&self) -> nat {
        self.alpha as nat
    }

    pub closed spec fn spec_max_rounds(&self) -> nat {
        self.max_rounds as nat
    }

    /// Rounds started so far.
    pub closed spec fn spec_rounds(&self) -> nat {
        self.rounds as nat
    }

    /// The candidates, nearest to the target first.
    pub closed spec fn spec_candidates(&self) -> Seq<CandidateView> {
        candidate_views(self.candidates@)
    }

    /// The nearest live candidate when the last round began.
    pub closed spec fn spec_best(&self) -> Option<Address> {
        self.best
    }

    pub closed spec fn wf(&self) -> bool {
        ordered(candidate_views(self.candidates@), self.target)
    }

    /// The last round brought no live candidate nearer than the best one
    /// known when it began.
    pub open spec fn converged(&self) -> bool {
        &&& self.spec_rounds() > 0
        &&& self.spec_best() matches Some(b) && (live(self.spec_candidates()).len() > 0 ==> distance(
            live(self.spec_candidates())[0].node.address,
            self.spec_target(),
        ) >= distance(b, self.spec_target()))
    }

    /// Whether the search is over.
    pub open spec fn finished(&self) -> bool {
        ||| self.spec_rounds() >= self.spec_max_rounds()
        ||| unqueried(self.spec_candidates()).len() == 0
        ||| self.converged()
    }

    /// A search for `target` that gathers `k` peers, sends at most `alpha`
    /// queries a round and runs at most `max_rounds` rounds, starting from
    /// `seeds` (as a routing table's `nearest_to` gives them).
    pub fn new(target: Address, k: usize, alpha: usize, max_rounds: u32, seeds: Vec<Node>) -> (r: Lookup)
        ensures
            r.wf(),
            r.spec_target() == target,
            r.spec_k() == k,
            r.spec_alpha() == alpha,
            r.spec_max_rounds() == max_rounds,
            r.spec_rounds() == 0,
            r.spec_best() is None,
            forall|a: Address|
                #[trigger] r.has_candidate(a) <==> exists|i: int|
                    0 <= i < seeds@.len() && seeds@[i].address == a,
            forall|i: int|
                0 <= i < r.spec_candidates().len() ==> !(#[trigger] r.spec_candidates()[i]).queried
                    && !r.spec_candidates()[i].failed,
    {
        let mut r = Lookup {
            target,
            k,
            alpha,
            max_rounds,
            rounds: 0,
            candidates: Vec::new(),
            best: None,
        };
        r.add_all(seeds);
        r
    }

    /// Whether a candidate is named `a`.
    pub open spec fn has_candidate(&self, a: Address) -> bool {
        exists|i: int|
            0 <= i < self.spec_candidates().len() && self.spec_candidates()[i].node.address == a
    }

    /// Adds each peer not yet a candidate, in its place by distance.
    pub fn add_all(&mut self, peers: Vec<Node>)
        requires
            old(self).wf(),
        ensures
            final(self).wf(),
            final(self).spec_target() == old(self).spec_target(),
            final(self).spec_k() == old(self).spec_k(),
            final(self).spec_alpha() == old(self).spec_alpha(),
            final(self).spec_max_rounds() == old(self).spec_max_rounds(),
            final(self).spec_rounds() == old(self).spec_rounds(),
            final(self).spec_best() == old(self).spec_best(),
            forall|a: Address|
                #[trigger] final(self).has_candidate(a) <==> old(self).has_candidate(a) || exists|i: int|
                    0 <= i < peers@.len() && peers@[i].address == a,
            forall|i: int|
                0 <= i < old(self).spec_candidates().len() ==> #[trigger] final(self).spec_candidates().contains(
                    old(self).spec_candidates()[i],
                ),
            forall|i: int|
                0 <= i < final(self).spec_candidates().len() ==> old(self).spec_candidates().contains(
                    #[trigger] final(self).spec_candidates()[i],
                ) || !final(self).spec_candidates()[i].queried && !final(self).spec_candidates()[i].failed,
    {
        let mut rest = peers;
        let ghost all = rest@;
        while rest.len() > 0
            invariant
                self.wf(),
                self.target == old(self).target,
                self.k == old(self).k,
                self.alpha == old(self).alpha,
                self.max_rounds == old(self).max_rounds,
                self.rounds == old(self).rounds,
                self.best == old(self).best,
                rest@.len() <= all.len(),
                rest@ == all.take(rest@.len() as int),
                forall|a: Address|
                    #[trigger] self.has_candidate(a) <==> old(self).has_candidate(a) || exists|i: int|
                        rest@.len() <= i < all.len() && all[i].address == a,
                forall|i: int|
                    0 <= i < old(self).spec_candidates().len() ==> #[trigger] self.spec_candidates().contains(
                        old(self).spec_candidates()[i],
                    ),
                forall|i: int|
                    0 <= i < self.spec_candidates().len() ==> old(self).spec_candidates().contains(
                        #[trigger] self.spec_candidates()[i],
                    ) || !self.spec_candidates()[i].queried && !self.spec_candidates()[i].failed,
            decreases rest@.len(),
        {
            let ghost before = *self;
            let n = rest.pop().unwrap();
            let ghost m = rest@.len() as int;
            proof {
                assert(rest@ =~= all.take(m));
                assert(n == all[m]);
            }
            self.add_candidate(n);
            proof {
                assert forall|a: Address| #[trigger] self.has_candidate(a) <==> old(self).has_candidate(a)
                    || exists|i: int| m <= i < all.len() && all[i].address == a by {
                    if exists|i: int| m <= i < all.len() && all[i].address == a {
                        let i = choose|i: int| m <= i < all.len() && all[i].address == a;
                        if i > m {
                            assert(before.has_candidate(a));
                        }
                    }
                    assert(self.has_candidate(a) == (before.has_candidate(a) || a == n.address));
                }
                assert forall|i: int| 0 <= i < old(self).spec_candidates().len() implies #[trigger] self.spec_candidates().contains(
                    old(self).spec_candidates()[i],
                ) by {
                    assert(before.spec_candidates().contains(old(self).spec_candidates()[i]));
                    let j = choose|j: int|
                        0 <= j < before.spec_candidates().len() && before.spec_candidates()[j]
                            == old(self).spec_candidates()[i];
                    assert(self.spec_candidates().contains(before.spec_candidates()[j]));
                }
                assert forall|i: int| 0 <= i < self.spec_candidates().len() implies old(self).spec_candidates().contains(
                    #[trigger] self.spec_candidates()[i],
                )
                    || !self.spec_candidates()[i].queried && !self.spec_candidates()[i].failed by {
                    let c = self.spec_candidates()[i];
                    if before.spec_candidates().contains(c) {
                        let j = choose|j: int| 0 <= j < before.spec_candidates().len() && before.spec_candidates()[j] == c;
                        assert(old(self).spec_candidates().contains(before.spec_candidates()[j])
                            || !before.spec_candidates()[j].queried && !before.spec_candidates()[j].failed);
                    }
                }
            }
        }
    }

    /// Adds `node` as an unqueried candidate in its place by distance, unless
    /// a candidate has its identifier; returns whether it was added.
    pub fn add_candidate(&mut self, node: Node) -> (r: bool)
        requires
            old(self).wf(),
        ensures
            final(self).wf(),
            final(self).spec_target() == old(self).spec_target(),
            final(self).spec_k() == old(self).spec_k(),
            final(self).spec_alpha() == old(self).spec_alpha(),
            final(self).spec_max_rounds() == old(self).spec_max_rounds(),
            final(self).spec_rounds() == old(self).spec_rounds(),
            final(self).spec_best() == old(self).spec_best(),
            r == !old(self).has_candidate(node.address),
            !r ==> final(self).spec_candidates() == old(self).spec_candidates(),
            r ==> exists|pos: int|
                0 <= pos <= old(self).spec_candidates().len() && final(self).spec_candidates()
                    == old(self).spec_candidates().insert(
                    pos,
                    CandidateView { node: node@, queried: false, answered: false, failed: false },
                ),
            forall|a: Address|
                #[trigger] final(self).has_candidate(a) <==> old(self).has_candidate(a) || a
                    == node.address,
            forall|i: int|
                0 <= i < final(self).spec_candidates().len() ==> old(self).spec_candidates().contains(
                    #[trigger] final(self).spec_candidates()[i],
                ) || !final(self).spec_candidates()[i].queried && !final(self).spec_candidates()[i].failed,
            forall|i: int|
                0 <= i < old(self).spec_candidates().len() ==> #[trigger] final(self).spec_candidates().contains(
                    old(self).spec_candidates()[i],
                ),
    {
        let ghost cs = self.spec_candidates();
        let ghost t = self.target;
        let mut pos: usize = 0;
        let mut stop = false;
        while pos < self.candidates.len() && !stop
            invariant
                self.wf(),
                cs == self.spec_candidates(),
                t == self.target,
                *self == *old(self),
                pos <= cs.len(),
                stop ==> pos < cs.len() && distance(cs[pos as int].node.address, t) > distance(
                    node.address,
                    t,
                ),
                forall|j: int|
                    0 <= j < pos ==> distance(#[trigger] cs[j].node.address, t) < distance(
                        node.address,
                        t,
                    ),
            decreases cs.len() - pos, if stop { 0int } else { 1int },
        {
            match self.target.compare_distances(&self.candidates[pos].node.address, &node.address) {
                Ordering::Less => {
                    pos = pos + 1;
                },
                Ordering::Equal => {
                    proof {
                        crate::address::lemma_distance_injective(
                            cs[pos as int].node.address,
                            node.address,
                            t,
                        );
                        assert(cs[pos as int].node.address == node.address);
                    }
                    return false;
                },
                Ordering::Greater => {
                    stop = true;
                },
            }
        }
        proof {
            assert forall|j: int| 0 <= j < cs.len() implies #[trigger] cs[j].node.address
                != node.address by {
                if j > pos {
                    assert(distance(cs[pos as int].node.address, t) < distance(cs[j].node.address, t));
                }
            }
        }
        let ghost nv = CandidateView { node: node@, queried: false, answered: false, failed: false };
        let ghost na = node.address;
        self.candidates.insert(pos, Candidate { node, queried: false, answered: false, failed: false });
        proof {
            let ns = self.spec_candidates();
            assert(ns =~= cs.insert(pos as int, nv));
            assert forall|i: int, j: int| 0 <= i < j < ns.len() implies distance(
                #[trigger] ns[i].node.address,
                t,
            ) < distance(#[trigger] ns[j].node.address, t) by {
                let i2 = if i < pos { i } else { i - 1 };
                let j2 = if j <= pos { j } else { j - 1 };
                if i != pos && j != pos {
                    assert(ns[i] == cs[i2] && ns[j] == cs[j2]);
                } else if i == pos {
                    assert(ns[j] == cs[j - 1]);
                    if j - 1 > pos {
                        assert(distance(cs[pos as int].node.address, t) < distance(
                            cs[j - 1].node.address,
                            t,
                        ));
                    }
                } else {
                    assert(ns[i] == cs[i]);
                }
            }
            assert(ns[pos as int].node.address == na);
            assert forall|a: Address| #[trigger] self.has_candidate(a) <==> old(self).has_candidate(a)
                || a == na by {
                if old(self).has_candidate(a) {
                    let i = choose|i: int| 0 <= i < cs.len() && cs[i].node.address == a;
                    let i2 = if i < pos { i } else { i + 1 };
                    assert(ns[i2] == cs[i]);
                }
                if self.has_candidate(a) && a != na {
                    let i = choose|i: int| 0 <= i < ns.len() && ns[i].node.address == a;
                    let i2 = if i < pos { i } else { i - 1 };
                    assert(ns[i] == cs[i2]);
                }
            }
            assert forall|i: int| 0 <= i < cs.len() implies #[trigger] ns.contains(cs[i]) by {
                let i2 = if i < pos { i } else { i + 1 };
                assert(ns[i2] == cs[i]);
            }
            assert forall|i: int| 0 <= i < ns.len() implies cs.contains(#[trigger] ns[i])
                || !ns[i].queried && !ns[i].failed by {
                if i < pos {
                    assert(ns[i] == cs[i]);
                } else if i > pos {
                    assert(ns[i] == cs[i - 1]);
                }
            }
        }
        true
    }

    /// The first live candidate, if any: the nearest peer not known to be
    /// unresponsive.
    fn closest_live(&self) -> (r: Option<Address>)
        ensures
            r is None <==> live(self.spec_candidates()).len() == 0,
            r matches Some(a) ==> a == live(self.spec_candidates())[0].node.address,
    {
        let ghost cs = self.spec_candidates();
        let ghost p = |c: CandidateView| !c.failed;
        let mut i: usize = 0;
        while i < self.candidates.len()
            invariant
                cs == self.spec_candidates(),
                p == (|c: CandidateView| !c.failed),
                i <= cs.len(),
                forall|j: int| 0 <= j < i ==> (#[trigger] cs[j]).failed,
            decreases cs.len() - i,
        {
            if !self.candidates[i].failed {
                proof {
                    lemma_none_before(cs, p, i as int);
                    lemma_filter_prefix(cs, p, i + 1);
                }
                return Some(self.candidates[i].node.address);
            }
            i = i + 1;
        }
        proof {
            assert(cs.take(cs.len() as int) =~= cs);
            lemma_none_before_empty(cs, p, cs.len() as int);
        }
        None
    }

    /// Whether any candidate is still unqueried.
    fn any_unqueried(&self) -> (r: bool)
        ensures
            r == (unqueried(self.spec_candidates()).len() > 0),
    {
        let ghost cs = self.spec_candidates();
        let ghost p = |c: CandidateView| !c.queried;
        let mut i: usize = 0;
        while i < self.candidates.len()
            invariant
                cs == self.spec_candidates(),
                p == (|c: CandidateView| !c.queried),
                i <= cs.len(),
                forall|j: int| 0 <= j < i ==> (#[trigger] cs[j]).queried,
            decreases cs.len() - i,
        {
            if !self.candidates[i].queried {
                proof {
                    cs.lemma_filter_contains(p, i as int);
                }
                return true;
            }
            i = i + 1;
        }
        proof {
            assert(cs.take(cs.len() as int) =~= cs);
            lemma_none_before_empty(cs, p, cs.len() as int);
        }
        false
    }

    /// Whether the search is over.
    pub fn is_finished(&self) -> (r: bool)
        ensures
            r == self.finished(),
    {
        if self.rounds >= self.max_rounds || !self.any_unqueried() {
            return true;
        }
        if self.rounds == 0 {
            return false;
        }
        match self.best {
            None => false,
            Some(b) => match self.closest_live() {
                None => true,
                Some(c) => !matches!(self.target.compare_distances(&c, &b), Ordering::Less),
            },
        }
    }

    /// What `next_round` does: `r` is the peers it returns.
    pub open spec fn next_round_post(old: &Self, new: &Self, r: Seq<NodeView>) -> bool {
        &&& new.spec_target() == old.spec_target()
        &&& new.spec_k() == old.spec_k()
        &&& new.spec_alpha() == old.spec_alpha()
        &&& new.spec_max_rounds() == old.spec_max_rounds()
        &&& old.finished() ==> r.len() == 0 && new.spec_candidates()
            == old.spec_candidates() && new.spec_rounds() == old.spec_rounds()
            && new.spec_best() == old.spec_best()
        &&& !old.finished() ==> {
            let cs = old.spec_candidates();
            &&& new.spec_rounds() == old.spec_rounds() + 1
            &&& new.spec_best() == if live(cs).len() > 0 {
                Some(live(cs)[0].node.address)
            } else {
                None::<Address>
            }
            &&& r == peers_of(first(unqueried(cs), old.spec_alpha()))
            &&& new.spec_candidates().len() == cs.len()
            &&& forall|i: int|
                0 <= i < cs.len() ==> {
                    let c = #[trigger] new.spec_candidates()[i];
                    &&& c.node == cs[i].node
                    &&& c.failed == cs[i].failed
                    &&& c.answered == cs[i].answered
                    &&& c.queried == (cs[i].queried || unqueried(cs.take(i)).len()
                        < old.spec_alpha())
                }
        }
    }

    /// Starts a round: returns the candidates to query, the at most `alpha`
    /// nearest not yet queried, and marks them queried. Returns nothing, and
    /// changes nothing, once the search is over.
    pub fn next_round(&mut self) -> (r: Vec<Node>)
        requires
            old(self).wf(),
        ensures
            final(self).wf(),
            Self::next_round_post(old(self), final(self), views(r@)),
    {
        if self.is_finished() {
            return Vec::new();
        }
        let best = self.closest_live();
        self.best = best;
        self.rounds = self.rounds + 1;
        let ghost cs = self.spec_candidates();
        let ghost p = |c: CandidateView| !c.queried;
        let mut out: Vec<Node> = Vec::new();
        let mut i: usize = 0;
        while i < self.candidates.len()
            invariant
                p == (|c: CandidateView| !c.queried),
                self.target == old(self).target,
                self.k == old(self).k,
                self.alpha == old(self).alpha,
                self.max_rounds == old(self).max_rounds,
                self.rounds == old(self).rounds + 1,
                self.best == best,
                cs == old(self).spec_candidates(),
                self.spec_candidates().len() == cs.len(),
                i <= cs.len(),
                out@.len() <= self.alpha,
                out@.len() < self.alpha ==> views(out@) == peers_of(unqueried(cs.take(i as int))),
                out@.len() == self.alpha ==> views(out@) == peers_of(
                    first(unqueried(cs), self.alpha as nat),
                ),
                out@.len() == self.alpha ==> unqueried(cs.take(i as int)).len() >= self.alpha,
                forall|j: int|
                    0 <= j < cs.len() ==> {
                        let c = #[trigger] self.spec_candidates()[j];
                        &&& c.node == cs[j].node
                        &&& c.failed == cs[j].failed
                    &&& c.answered == cs[j].answered
                        &&& c.answered == cs[j].answered
                        &&& c.queried == if j < i {
                            cs[j].queried || unqueried(cs.take(j)).len() < self.alpha
                        } else {
                            cs[j].queried
                        }
                    },
            decreases cs.len() - i,
        {
            let ghost before = views(out@);
            let ghost prev = self.spec_candidates();
            let ghost picked_before = out@.len();
            proof {
                if picked_before < self.alpha {
                    assert(before.len() == unqueried(cs.take(i as int)).len());
                }
                let tk = cs.take(i + 1);
                reveal(Seq::filter);
                assert(tk.drop_last() =~= cs.take(i as int));
                assert(tk.last() == cs[i as int]);
                assert(self.spec_candidates()[i as int].queried == cs[i as int].queried);
            }
            if !self.candidates[i].queried && out.len() < self.alpha {
                out.push(self.candidates[i].node.duplicate());
                self.candidates[i].queried = true;
                proof {
                    assert(views(out@) =~= before.push(cs[i as int].node));
                    assert(peers_of(unqueried(cs.take(i + 1))) =~= peers_of(unqueried(cs.take(i as int))).push(cs[i as int].node));
                    if out@.len() == self.alpha {
                        lemma_filter_prefix(cs, p, i + 1);
                        assert(first(unqueried(cs), self.alpha as nat) =~= unqueried(cs.take(i + 1)));
                    }
                }
            }
            proof {
                let ii = i as int;
                assert forall|j: int| 0 <= j < cs.len() implies {
                    let c = #[trigger] self.spec_candidates()[j];
                    &&& c.node == cs[j].node
                    &&& c.failed == cs[j].failed
                    &&& c.answered == cs[j].answered
                    &&& c.queried == if j < ii + 1 {
                        cs[j].queried || unqueried(cs.take(j)).len() < self.alpha
                    } else {
                        cs[j].queried
                    }
                } by {
                    if j != ii {
                        assert(self.spec_candidates()[j] == prev[j]);
                    }
                }
            }
            i = i + 1;
        }
        proof {
            assert(cs.take(cs.len() as int) =~= cs);
            if out@.len() < self.alpha {
                assert(first(unqueried(cs), self.alpha as nat) == unqueried(cs));
            }
            assert(ordered(self.spec_candidates(), self.target)) by {
                assert forall|a: int, b: int| 0 <= a < b < self.spec_candidates().len() implies distance(
                    #[trigger] self.spec_candidates()[a].node.address,
                    self.target,
                ) < distance(#[trigger] self.spec_candidates()[b].node.address, self.target) by {
                    assert(cs[a].node.address == self.spec_candidates()[a].node.address);
                    assert(cs[b].node.address == self.spec_candidates()[b].node.address);
                }
            }
        }
        out
    }

    /// The query to the candidate named `address` timed out: it is dropped
    /// from the result and never queried again. Returns whether such a
    /// candidate exists.
    pub fn on_timeout(&mut self, address: &Address) -> (r: bool)
        requires
            old(self).wf(),
        ensures
            final(self).wf(),
            final(self).spec_target() == old(self).spec_target(),
            final(self).spec_k() == old(self).spec_k(),
            final(self).spec_alpha() == old(self).spec_alpha(),
            final(self).spec_max_rounds() == old(self).spec_max_rounds(),
            final(self).spec_rounds() == old(self).spec_rounds(),
            final(self).spec_best() == old(self).spec_best(),
            r == old(self).has_candidate(*address),
            !r ==> final(self).spec_candidates() == old(self).spec_candidates(),
            forall|i: int|
                0 <= i < old(self).spec_candidates().len()
                    && #[trigger] old(self).spec_candidates()[i].node.address == *address
                    ==> final(self).spec_candidates() == old(self).spec_candidates().update(
                    i,
                    CandidateView { failed: true, ..old(self).spec_candidates()[i] },
                ),
    {
        let ghost cs = self.spec_candidates();
        let mut i: usize = 0;
        while i < self.candidates.len()
            invariant
                cs == self.spec_candidates(),
                *self == *old(self),
                self.wf(),
                i <= cs.len(),
                forall|j: int| 0 <= j < i ==> (#[trigger] cs[j]).node.address != *address,
            decreases cs.len() - i,
        {
            if self.candidates[i].node.address == *address {
                proof {
                    lemma_address_ext(cs[i as int].node.address, *address);
                    assert forall|j: int|
                        0 <= j < cs.len() && #[trigger] cs[j].node.address == *address implies j
                            == i as int by {
                        if j != i as int {
                            if j < i as int {
                                assert(distance(cs[j].node.address, self.target) < distance(
                                    cs[i as int].node.address,
                                    self.target,
                                ));
                            } else {
                                assert(distance(cs[i as int].node.address, self.target) < distance(
                                    cs[j].node.address,
                                    self.target,
                                ));
                            }
                        }
                    }
                }
                self.candidates[i].failed = true;
                proof {
                    let ns = self.spec_candidates();
                    assert(ns =~= cs.update(i as int, CandidateView { failed: true, ..cs[i as int] }));
                    assert forall|a: int, b: int| 0 <= a < b < ns.len() implies distance(
                        #[trigger] ns[a].node.address,
                        self.target,
                    ) < distance(#[trigger] ns[b].node.address, self.target) by {
                        assert(ns[a].node == cs[a].node && ns[b].node == cs[b].node);
                    }
                }
                return true;
            }
            i = i + 1;
        }
        false
    }

    /// The candidate named `address` answered: it is confirmed reachable.
    /// Returns whether such a candidate exists.
    pub fn on_answer(&mut self, address: &Address) -> (r: bool)
        requires
            old(self).wf(),
        ensures
            final(self).wf(),
            final(self).spec_target() == old(self).spec_target(),
            final(self).spec_k() == old(self).spec_k(),
            final(self).spec_alpha() == old(self).spec_alpha(),
            final(self).spec_max_rounds() == old(self).spec_max_rounds(),
            final(self).spec_rounds() == old(self).spec_rounds(),
            final(self).spec_best() == old(self).spec_best(),
            r == old(self).has_candidate(*address),
            !r ==> final(self).spec_candidates() == old(self).spec_candidates(),
            forall|i: int|
                0 <= i < old(self).spec_candidates().len()
                    && #[trigger] old(self).spec_candidates()[i].node.address == *address
                    ==> final(self).spec_candidates() == old(self).spec_candidates().update(
                    i,
                    CandidateView { answered: true, ..old(self).spec_candidates()[i] },
                ),
    {
        let ghost cs = self.spec_candidates();
        let mut i: usize = 0;
        while i < self.candidates.len()
            invariant
                cs == self.spec_candidates(),
                *self == *old(self),
                self.wf(),
                i <= cs.len(),
                forall|j: int| 0 <= j < i ==> (#[trigger] cs[j]).node.address != *address,
            decreases cs.len() - i,
        {
            if self.candidates[i].node.address == *address {
                proof {
                    lemma_address_ext(cs[i as int].node.address, *address);
                    assert forall|j: int|
                        0 <= j < cs.len() && #[trigger] cs[j].node.address == *address implies j
                            == i as int by {
                        if j != i as int {
                            if j < i as int {
                                assert(distance(cs[j].node.address, self.target) < distance(
                                    cs[i as int].node.address,
                                    self.target,
                                ));
                            } else {
                                assert(distance(cs[i as int].node.address, self.target) < distance(
                                    cs[j].node.address,
                                    self.target,
                                ));
                            }
                        }
                    }
                }
                self.candidates[i].answered = true;
                proof {
                    let ns = self.spec_candidates();
                    assert(ns =~= cs.update(i as int, CandidateView { answered: true, ..cs[i as int] }));
                    assert forall|a: int, b: int| 0 <= a < b < ns.len() implies distance(
                        #[trigger] ns[a].node.address,
                        self.target,
                    ) < distance(#[trigger] ns[b].node.address, self.target) by {
                        assert(ns[a].node == cs[a].node && ns[b].node == cs[b].node);
                    }
                }
                return true;
            }
            i = i + 1;
        }
        false
    }

    /// The outcome: the at most `k` nearest candidates that answered and
    /// did not later time out, nearest first.
    pub fn result(&self) -> (r: Vec<Node>)
        ensures
            views(r@) == peers_of(first(confirmed(self.spec_candidates()), self.spec_k())),
    {
        let ghost cs = self.spec_candidates();
        let ghost p = |c: CandidateView| c.answered && !c.failed;
        let mut out: Vec<Node> = Vec::new();
        let mut i: usize = 0;
        while i < self.candidates.len() && out.len() < self.k
            invariant
                p == (|c: CandidateView| c.answered && !c.failed),
                cs == self.spec_candidates(),
                i <= cs.len(),
                out@.len() <= self.k,
                views(out@) == peers_of(confirmed(cs.take(i as int))),
            decreases cs.len() - i,
        {
            let ghost before = views(out@);
            proof {
                let tk = cs.take(i + 1);
                reveal(Seq::filter);
                assert(tk.drop_last() =~= cs.take(i as int));
                assert(tk.last() == cs[i as int]);
            }
            if self.candidates[i].answered && !self.candidates[i].failed {
                out.push(self.candidates[i].node.duplicate());
                proof {
                    assert(views(out@) =~= before.push(cs[i as int].node));
                    assert(peers_of(confirmed(cs.take(i + 1))) =~= peers_of(confirmed(cs.take(i as int))).push(
                        cs[i as int].node,
                    ));
                }
            } else {
                proof {
                    assert(confirmed(cs.take(i + 1)) == confirmed(cs.take(i as int)));
                }
            }
            i = i + 1;
        }
        proof {
            lemma_filter_prefix(cs, p, i as int);
            if i == cs.len() {
                assert(cs.take(i as int) =~= cs);
            }
            if out@.len() == self.k {
                assert(first(confirmed(cs), self.k as nat) =~= confirmed(cs.take(i as int)));
            } else {
                assert(cs.take(i as int) =~= cs);
                assert(first(confirmed(cs), self.k as nat) == confirmed(cs));
            }
        }
        out
    }
}

/// When no element before `i` satisfies `p`, filtering the first `i`
/// elements leaves nothing.
proof fn lemma_none_before_empty<A>(s: Seq<A>, p: spec_fn(A) -> bool, i: int)
    requires
        0 <= i <= s.len(),
        forall|j: int| 0 <= j < i ==> !p(#[trigger] s[j]),
    ensures
        s.take(i).filter(p).len() == 0,
        i == s.len() ==> s.filter(p).len() == 0,
    decreases i,
{
    reveal(Seq::filter);
    if i > 0 {
        lemma_none_before_empty(s, p, i - 1);
        let t = s.take(i);
        assert(t.drop_last() =~= s.take(i - 1));
        assert(t.last() == s[i - 1]);
    }
    if i == s.len() {
        assert(s.take(i) =~= s);
    }
}

/// When no element before `i` satisfies `p` and element `i` does, it is the
/// first element of the filtered sequence.
proof fn lemma_none_before<A>(s: Seq<A>, p: spec_fn(A) -> bool, i: int)
    requires
        0 <= i < s.len(),
        forall|j: int| 0 <= j < i ==> !p(#[trigger] s[j]),
        p(s[i]),
    ensures
        s.take(i + 1).filter(p) == seq![s[i]],
        s.filter(p).len() > 0,
        s.filter(p)[0] == s[i],
{
    lemma_none_before_empty(s, p, i);
    reveal(Seq::filter);
    let t = s.take(i + 1);
    assert(t.drop_last() =~= s.take(i));
    assert(t.last() == s[i]);
    assert(t.filter(p) =~= seq![s[i]]);
    lemma_filter_prefix(s, p, i + 1);
    assert(s.filter(p).take(1)[0] == s[i]);
}

} // verus!
