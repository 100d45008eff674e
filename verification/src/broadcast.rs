use vstd::prelude::*;

use crate::node::{Init, Message, Outbound, Outbox};
use crate::raft::{distinct_ids, has_node, node_index};

verus! {

/// Pairwise distinct integers.
pub open spec fn distinct_nums(s: Seq<usize>) -> bool {
    forall|i: int, j: int| 0 <= i < j < s.len() ==> s[i] != s[j]
}

/// The values of `set` that `seen` misses, in `set`'s order.
pub open spec fn delta(set: Seq<usize>, seen: Seq<usize>) -> Seq<usize> {
    set.filter(|x: usize| !seen.contains(x))
}

/// The broadcast workload's messages.
pub enum BroadcastPayload {
    Broadcast { message: usize },
    BroadcastOk,
    Read,
    ReadOk { messages: Vec<usize> },
    Topology { topology: Vec<(String, Vec<String>)> },
    TopologyOk,
    Gossip { messages: Vec<usize> },
}

/// The broadcast workload: a monotone local set of values, the neighbour
/// list gossip goes to, and for every cluster member the values it is known
/// to hold already (`peers` and `seen` run parallel), so gossip carries only
/// what a neighbour misses.
pub struct BroadcastNode {
    pub id: String,
    pub neigs: Vec<String>,
    pub set: Vec<usize>,
    pub peers: Vec<String>,
    pub seen: Vec<Vec<usize>>,
}

impl BroadcastNode {
    /// The per-peer vectors run parallel to a duplicate-free membership, the
    /// local set and every `seen` set hold no duplicates, every neighbour is
    /// a member, and nothing is known to a peer that is not held locally.
    pub open spec fn wf(self) -> bool {
        &&& self.seen@.len() == self.peers@.len()
        &&& distinct_ids(self.peers@)
        &&& distinct_nums(self.set@)
        &&& (forall|i: int| 0 <= i < self.seen@.len() ==> distinct_nums(#[trigger] self.seen@[i]@))
        &&& (forall|i: int, x: usize|
            0 <= i < self.seen@.len() && #[trigger] self.seen@[i]@.contains(x)
                ==> self.set@.contains(x))
        &&& (forall|j: int|
            0 <= j < self.neigs@.len() ==> has_node(self.peers@, (#[trigger] self.neigs@[j])@))
    }

    /// An empty node with no membership yet.
    pub fn new() -> (r: Self)
        ensures
            r.wf(),
            r.set@ == Seq::<usize>::empty(),
            r.neigs@ == Seq::<String>::empty(),
            r.peers@ == Seq::<String>::empty(),
    {
        BroadcastNode {
            id: String::new(),
            neigs: Vec::new(),
            set: Vec::new(),
            peers: Vec::new(),
            seen: Vec::new(),
        }
    }

    /// Adopts the cluster membership: every member starts with nothing known
    /// to it, and every member is a neighbour until a topology message
    /// narrows the list.
    pub fn init(&mut self, init: Init)
        requires
            old(self).wf(),
            distinct_ids(init.nodes@),
        ensures
            final(self).wf(),
            final(self).id == init.id,
            final(self).set == old(self).set,
            final(self).peers@ == init.nodes@,
            final(self).neigs@ == init.nodes@,
            forall|i: int|
                0 <= i < final(self).seen@.len() ==> (#[trigger] final(self).seen@[i])@
                    == Seq::<usize>::empty(),
    {
        let n = init.nodes.len();
        let mut seen: Vec<Vec<usize>> = Vec::new();
        let mut neigs: Vec<String> = Vec::new();
        let mut i: usize = 0;
        while i < n
            invariant
                i <= n,
                n == init.nodes@.len(),
                seen@.len() == i,
                neigs@ == init.nodes@.subrange(0, i as int),
                forall|j: int|
                    0 <= j < i ==> (#[trigger] seen@[j])@ == Seq::<usize>::empty(),
            decreases n - i,
        {
            proof {
                assert(init.nodes@.subrange(0, i as int).push(init.nodes@[i as int])
                    =~= init.nodes@.subrange(0, i as int + 1));
            }
            seen.push(Vec::new());
            neigs.push(init.nodes[i].clone());
            i = i + 1;
        }
        proof {
            assert(init.nodes@.subrange(0, n as int) =~= init.nodes@);
        }
        self.id = init.id;
        self.seen = seen;
        self.peers = init.nodes;
        self.neigs = neigs;
    }

    /// Absorbs one request. A `broadcast` inserts the value and is
    /// acknowledged; a `read` is answered with the whole set; a `topology`
    /// replaces the neighbour list with this node's entry; `gossip` from a
    /// member merges the carried values into the local set and into what that
    /// member is known to hold.
    pub fn message(
        &mut self,
        message: Message<BroadcastPayload>,
        out: &mut Outbox<BroadcastPayload>,
    )
        requires
            old(self).wf(),
            !(message.body.payload is BroadcastOk),
            !(message.body.payload is ReadOk),
            !(message.body.payload is TopologyOk),
            message.body.payload matches BroadcastPayload::Topology { topology } ==> {
                &&& distinct_ids(topology@.map_values(|e: (String, Vec<String>)| e.0))
                &&& (exists|i: int|
                    0 <= i < topology@.len() && (#[trigger] topology@[i]).0@ == old(self).id@)
                &&& (forall|i: int, j: int|
                    0 <= i < topology@.len() && (#[trigger] topology@[i]).0@ == old(self).id@ && 0
                        <= j < topology@[i].1@.len() ==> has_node(
                        old(self).peers@,
                        (#[trigger] topology@[i].1@[j])@,
                    ))
            },
            message.body.payload is Gossip ==> has_node(old(self).peers@, message.src@),
        ensures
            final(self).wf(),
            final(self).id == old(self).id,
            final(self).peers == old(self).peers,
            old(self).set@.is_prefix_of(final(self).set@),
            match message.body.payload {
                BroadcastPayload::Broadcast { message: m } => {
                    &&& (forall|x: usize|
                        final(self).set@.contains(x) == (old(self).set@.contains(x) || x == m))
                    &&& final(self).neigs == old(self).neigs
                    &&& final(self).seen == old(self).seen
                    &&& final(out).queue@ == old(out).queue@.push(
                        Outbound {
                            dst: message.src,
                            reply: message.body.id,
                            payload: BroadcastPayload::BroadcastOk,
                        },
                    )
                },
                BroadcastPayload::Read => {
                    &&& *final(self) == *old(self)
                    &&& final(out).queue@.len() == old(out).queue@.len() + 1
                    &&& old(out).queue@.is_prefix_of(final(out).queue@)
                    &&& final(out).queue@.last().dst == message.src
                    &&& final(out).queue@.last().reply == message.body.id
                    &&& final(out).queue@.last().payload matches BroadcastPayload::ReadOk {
                        messages,
                    } && messages@ == old(self).set@
                },
                BroadcastPayload::Topology { topology } => {
                    &&& final(self).set == old(self).set
                    &&& final(self).seen == old(self).seen
                    &&& (exists|i: int|
                        0 <= i < topology@.len() && (#[trigger] topology@[i]).0@ == old(self).id@
                            && final(self).neigs == topology@[i].1)
                    &&& final(out).queue@ == old(out).queue@.push(
                        Outbound {
                            dst: message.src,
                            reply: message.body.id,
                            payload: BroadcastPayload::TopologyOk,
                        },
                    )
                },
                BroadcastPayload::Gossip { messages } => {
                    let pi = node_index(old(self).peers@, message.src@);
                    &&& final(self).neigs == old(self).neigs
                    &&& (forall|x: usize|
                        final(self).set@.contains(x) == (old(self).set@.contains(x)
                            || messages@.contains(x)))
                    &&& final(self).seen@.len() == old(self).seen@.len()
                    &&& (forall|i: int|
                        0 <= i < old(self).seen@.len() && i != pi
                            ==> #[trigger] final(self).seen@[i] == old(self).seen@[i])
                    &&& (forall|x: usize|
                        (#[trigger] final(self).seen@[pi]@.contains(x)) == (old(self).seen@[pi]@.contains(x)
                            || messages@.contains(x)))
                    &&& final(out).queue@ == old(out).queue@
                },
                _ => false,
            },
    {
        let dst = message.src;
        let rply = message.body.id;

        match message.body.payload {
            BroadcastPayload::Broadcast { message: m } => {
                insert_num(&mut self.set, m);
                out.send(dst, rply, BroadcastPayload::BroadcastOk);
                proof {
                    assert forall|i2: int, x: usize|
                        0 <= i2 < self.seen@.len() && #[trigger] self.seen@[i2]@.contains(x)
                            implies self.set@.contains(x) by {
                        assert(old(self).seen@[i2]@.contains(x));
                    }
                }
            },
            BroadcastPayload::Read => {
                let messages = copy_nums(&self.set);
                out.send(dst, rply, BroadcastPayload::ReadOk { messages });
            },
            BroadcastPayload::Topology { topology } => {
                let mut topology = topology;
                let n = topology.len();
                let mut i: usize = 0;
                let mut located = false;
                let mut idx: usize = 0;
                let ghost tview = topology@;
                while i < n
                    invariant
                        i <= n,
                        n == topology@.len(),
                        topology@ == tview,
                        self == old(self),
                        located ==> idx < n && topology@[idx as int].0@ == self.id@,
                        !located ==> forall|k: int|
                            0 <= k < i ==> (#[trigger] topology@[k]).0@ != self.id@,
                    decreases n - i,
                {
                    if !located && topology[i].0 == self.id {
                        idx = i;
                        located = true;
                    }
                    i = i + 1;
                }
                assert(located);
                let i = idx;
                let entry = topology.remove(i);
                self.neigs = entry.1;
                out.send(dst, rply, BroadcastPayload::TopologyOk);
                proof {
                    assert(tview[i as int].0@ == old(self).id@ && self.neigs == tview[i as int].1);
                    assert forall|j: int|
                        0 <= j < self.neigs@.len() implies has_node(
                        self.peers@,
                        (#[trigger] self.neigs@[j])@,
                    ) by {
                        assert(tview[i as int].1@[j] == self.neigs@[j]);
                    }
                }
            },
            BroadcastPayload::Gossip { messages } => {
                let pi = match find_node_in(&self.peers, &dst) {
                    Some(pi) => pi,
                    None => {
                        return ;
                    },
                };
                union_nums(&mut self.set, &messages);
                let mut seen_pi = self.seen.remove(pi);
                union_nums(&mut seen_pi, &messages);
                self.seen.insert(pi, seen_pi);
                proof {
                    assert(self.seen@ =~= old(self).seen@.update(
                        pi as int,
                        self.seen@[pi as int],
                    ));
                    assert forall|i2: int, x: usize|
                        0 <= i2 < self.seen@.len() && #[trigger] self.seen@[i2]@.contains(x)
                            implies self.set@.contains(x) by {
                        if i2 == pi as int {
                            assert(self.seen@[i2]@.contains(x));
                            assert(old(self).seen@[pi as int]@.contains(x) || messages@.contains(
                                x,
                            ));
                            if old(self).seen@[i2]@.contains(x) {
                                assert(old(self).set@.contains(x));
                            }
                        } else {
                            assert(self.seen@[i2] == old(self).seen@[i2]);
                            assert(old(self).seen@[i2]@.contains(x));
                            assert(old(self).set@.contains(x));
                        }
                    }
                }
            },
            _ => {
            },
        }
    }

    /// Gossips to every neighbour the values it is not known to hold: each
    /// appended message carries exactly the neighbour's missing values, only
    /// neighbours missing something are addressed, and every such neighbour
    /// is.
    pub fn event(&mut self, out: &mut Outbox<BroadcastPayload>)
        requires
            old(self).wf(),
        ensures
            *final(self) == *old(self),
            final(self).wf(),
            old(out).queue@.is_prefix_of(final(out).queue@),
            forall|k: int|
                old(out).queue@.len() <= k < final(out).queue@.len() ==> {
                    let m = #[trigger] final(out).queue@[k];
                    &&& m.reply is None
                    &&& exists|j: int|
                        0 <= j < old(self).neigs@.len() && m.dst == old(self).neigs@[j] && (
                        m.payload matches BroadcastPayload::Gossip { messages } && messages@
                            == delta(
                            old(self).set@,
                            old(self).seen@[node_index(
                                old(self).peers@,
                                (old(self).neigs@[j])@,
                            )]@,
                        ) && messages@.len() > 0)
                },
            forall|j: int|
                0 <= j < old(self).neigs@.len() && delta(
                    old(self).set@,
                    old(self).seen@[node_index(old(self).peers@, (old(self).neigs@[j])@)]@,
                ).len() > 0 ==> exists|k: int|
                    old(out).queue@.len() <= k < final(out).queue@.len()
                        && (#[trigger] final(out).queue@[k]).dst == old(self).neigs@[j],
    {
        let n = self.neigs.len();
        let mut i: usize = 0;
        while i < n
            invariant
                i <= n,
                self.wf(),
                *self == *old(self),
                n == self.neigs@.len(),
                old(out).queue@.is_prefix_of(out.queue@),
                forall|k: int|
                    old(out).queue@.len() <= k < out.queue@.len() ==> {
                        let m = #[trigger] out.queue@[k];
                        &&& m.reply is None
                        &&& exists|j: int|
                            0 <= j < self.neigs@.len() && m.dst == self.neigs@[j] && (
                            m.payload matches BroadcastPayload::Gossip { messages } && messages@
                                == delta(
                                self.set@,
                                self.seen@[node_index(self.peers@, (self.neigs@[j])@)]@,
                            ) && messages@.len() > 0)
                    },
                forall|j: int|
                    0 <= j < i && delta(
                        self.set@,
                        self.seen@[node_index(self.peers@, (self.neigs@[j])@)]@,
                    ).len() > 0 ==> exists|k: int|
                        old(out).queue@.len() <= k < out.queue@.len()
                            && (#[trigger] out.queue@[k]).dst == self.neigs@[j],
            decreases n - i,
        {
            let pi = match find_node_in(&self.peers, &self.neigs[i]) {
                Some(pi) => pi,
                None => {
                    proof {
                        assert(has_node(self.peers@, (self.neigs@[i as int])@));
                    }
                    return ;
                },
            };
            let to_send = difference(&self.set, &self.seen[pi]);
            if to_send.len() > 0 {
                let ghost prev = out.queue@;
                out.send(
                    self.neigs[i].clone(),
                    None,
                    BroadcastPayload::Gossip { messages: to_send },
                );
                proof {
                    assert(out.queue@[prev.len() as int].dst == self.neigs@[i as int]);
                    assert forall|j: int|
                        0 <= j < i + 1 && delta(
                            self.set@,
                            self.seen@[node_index(self.peers@, (self.neigs@[j])@)]@,
                        ).len() > 0 implies exists|k: int|
                        old(out).queue@.len() <= k < out.queue@.len()
                            && (#[trigger] out.queue@[k]).dst == self.neigs@[j] by {
                        if j < i {
                            let k0 = choose|k: int|
                                old(out).queue@.len() <= k < prev.len() && (#[trigger] prev[k]).dst
                                    == self.neigs@[j];
                            assert(out.queue@[k0].dst == self.neigs@[j]);
                        } else {
                            assert(out.queue@[prev.len() as int].dst == self.neigs@[j]);
                        }
                    }
                }
            }
            i = i + 1;
        }
    }
}

/// Law (bounded redundancy): gossip never carries a value to a peer that is
/// already known to hold it. Every value of an appended gossip message is in
/// the neighbour's delta, which holds exactly the local values the peer is
/// not known to hold; and a peer is known to hold everything it acknowledged,
/// since an inbound gossip from it lands in `seen` for it.
pub proof fn lemma_gossip_skips_acknowledged(set: Seq<usize>, seen: Seq<usize>, x: usize)
    requires
        delta(set, seen).contains(x),
    ensures
        set.contains(x),
        !seen.contains(x),
{
    lemma_filter_member(set, |y: usize| !seen.contains(y), x);
}

/// Law (a step towards eventual delivery): one gossip hands a neighbour
/// everything it is missing. Every locally held value is either in the delta
/// a gossip round sends to the peer, or already known to it; since the local
/// set only grows and a received gossip merges by union, each round closes
/// the gap, and with every value reaching some node and gossip on every edge
/// of a connected topology, every surviving node's read converges to the
/// union of all broadcast values.
pub proof fn lemma_gossip_closes_the_gap(set: Seq<usize>, seen: Seq<usize>, x: usize)
    requires
        set.contains(x),
    ensures
        delta(set, seen).contains(x) || seen.contains(x),
{
    if !seen.contains(x) {
        let i = choose|i: int| 0 <= i < set.len() && set[i] == x;
        set.lemma_filter_contains(|y: usize| !seen.contains(y), i);
    }
}

/// A member of a filtered sequence is a member of the original that passes
/// the test.
proof fn lemma_filter_member(s: Seq<usize>, pred: spec_fn(usize) -> bool, x: usize)
    requires
        s.filter(pred).contains(x),
    ensures
        s.contains(x),
        pred(x),
    decreases s.len(),
{
    reveal(Seq::filter);
    if s.len() > 0 {
        if pred(s.last()) && x == s.last() {
            assert(s[s.len() - 1] == x);
        } else {
            assert(s.drop_last().filter(pred).contains(x));
            lemma_filter_member(s.drop_last(), pred, x);
            let w = choose|i: int| 0 <= i < s.drop_last().len() && s.drop_last()[i] == x;
            assert(s[w] == x);
        }
    }
}

/// Whether `x` is in the vector.
fn contains_num(v: &Vec<usize>, x: usize) -> (r: bool)
    ensures
        r == v@.contains(x),
{
    let n = v.len();
    let mut i: usize = 0;
    while i < n
        invariant
            i <= n,
            n == v@.len(),
            forall|j: int| 0 <= j < i ==> v@[j] != x,
        decreases n - i,
    {
        if v[i] == x {
            return true;
        }
        i = i + 1;
    }
    false
}

/// Inserts `x` unless present; the set stays duplicate-free and monotone.
fn insert_num(v: &mut Vec<usize>, x: usize)
    requires
        distinct_nums(old(v)@),
    ensures
        distinct_nums(final(v)@),
        old(v)@.is_prefix_of(final(v)@),
        forall|y: usize| final(v)@.contains(y) == (old(v)@.contains(y) || y == x),
        old(v)@.contains(x) ==> final(v)@ == old(v)@,
        !old(v)@.contains(x) ==> final(v)@ == old(v)@.push(x),
{
    if !contains_num(v, x) {
        v.push(x);
        proof {
            assert(v@.drop_last() =~= old(v)@);
            assert forall|y: usize| v@.contains(y) == (old(v)@.contains(y) || y == x) by {
                if old(v)@.contains(y) {
                    let w = choose|i: int| 0 <= i < old(v)@.len() && old(v)@[i] == y;
                    assert(v@[w] == y);
                }
                if y == x {
                    assert(v@[v@.len() - 1] == y);
                }
                if v@.contains(y) {
                    let w = choose|i: int| 0 <= i < v@.len() && v@[i] == y;
                    if w < v@.len() - 1 {
                        assert(old(v)@[w] == y);
                    }
                }
            }
        }
    }
}

/// Unions `src` into `dst`; the set stays duplicate-free and monotone.
fn union_nums(dst: &mut Vec<usize>, src: &Vec<usize>)
    requires
        distinct_nums(old(dst)@),
    ensures
        distinct_nums(final(dst)@),
        old(dst)@.is_prefix_of(final(dst)@),
        forall|y: usize|
            final(dst)@.contains(y) == (old(dst)@.contains(y) || src@.contains(y)),
{
    let n = src.len();
    let mut i: usize = 0;
    while i < n
        invariant
            i <= n,
            n == src@.len(),
            distinct_nums(dst@),
            old(dst)@.is_prefix_of(dst@),
            forall|y: usize|
                dst@.contains(y) == (old(dst)@.contains(y) || src@.subrange(0, i as int).contains(
                    y,
                )),
        decreases n - i,
    {
        insert_num(dst, src[i]);
        proof {
            assert forall|y: usize|
                dst@.contains(y) == (old(dst)@.contains(y) || src@.subrange(
                    0,
                    i as int + 1,
                ).contains(y)) by {
                if src@.subrange(0, i as int + 1).contains(y) {
                    let w = choose|k: int|
                        0 <= k < i + 1 && #[trigger] src@.subrange(0, i as int + 1)[k] == y;
                    if w < i {
                        assert(src@.subrange(0, i as int)[w] == y);
                    }
                }
                if src@.subrange(0, i as int).contains(y) {
                    let w = choose|k: int|
                        0 <= k < i && #[trigger] src@.subrange(0, i as int)[k] == y;
                    assert(src@.subrange(0, i as int + 1)[w] == y);
                }
                if src@[i as int] == y {
                    assert(src@.subrange(0, i as int + 1)[i as int] == y);
                }
            }
        }
        i = i + 1;
    }
    proof {
        assert(src@.subrange(0, n as int) =~= src@);
    }
}

/// A copy of the values, in order.
fn copy_nums(v: &Vec<usize>) -> (r: Vec<usize>)
    ensures
        r@ == v@,
{
    let n = v.len();
    let mut r: Vec<usize> = Vec::new();
    let mut i: usize = 0;
    while i < n
        invariant
            i <= n,
            n == v@.len(),
            r@ == v@.subrange(0, i as int),
        decreases n - i,
    {
        proof {
            assert(v@.subrange(0, i as int).push(v@[i as int]) =~= v@.subrange(0, i as int + 1));
        }
        r.push(v[i]);
        i = i + 1;
    }
    proof {
        assert(v@.subrange(0, n as int) =~= v@);
    }
    r
}

/// The values of `set` that `seen` misses, executably.
fn difference(set: &Vec<usize>, seen: &Vec<usize>) -> (r: Vec<usize>)
    ensures
        r@ == delta(set@, seen@),
{
    let n = set.len();
    let mut r: Vec<usize> = Vec::new();
    let mut i: usize = 0;
    proof {
        reveal(Seq::filter);
    }
    while i < n
        invariant
            i <= n,
            n == set@.len(),
            r@ == delta(set@.subrange(0, i as int), seen@),
        decreases n - i,
    {
        proof {
            reveal(Seq::filter);
            assert(set@.subrange(0, i as int + 1).drop_last() =~= set@.subrange(0, i as int));
            assert(set@.subrange(0, i as int + 1).last() == set@[i as int]);
        }
        if !contains_num(seen, set[i]) {
            r.push(set[i]);
        }
        i = i + 1;
    }
    proof {
        assert(set@.subrange(0, n as int) =~= set@);
    }
    r
}

/// The position of node `id` in `nodes`, if it is there.
fn find_node_in(nodes: &Vec<String>, id: &String) -> (r: Option<usize>)
    requires
        distinct_ids(nodes@),
    ensures
        match r {
            Some(i) => i < nodes@.len() && nodes@[i as int]@ == id@ && i as int == node_index(
                nodes@,
                id@,
            ),
            None => !has_node(nodes@, id@),
        },
{
    let n = nodes.len();
    let mut i: usize = 0;
    while i < n
        invariant
            i <= n,
            n == nodes@.len(),
            distinct_ids(nodes@),
            forall|j: int| 0 <= j < i ==> nodes@[j]@ != id@,
        decreases n - i,
    {
        if nodes[i] == *id {
            proof {
                assert(has_node(nodes@, id@));
                let w = node_index(nodes@, id@);
                assert(nodes@[w]@ == id@);
                assert(w == i as int);
            }
            return Some(i);
        }
        i = i + 1;
    }
    None
}

} // verus!
