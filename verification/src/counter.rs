use vstd::prelude::*;

use crate::node::{Init, Message, Outbound, Outbox};
use crate::raft::{distinct_ids, has_node, node_index};

verus! {

/// The grow-only counter workload's messages.
pub enum CounterPayload {
    Add { delta: usize },
    AddOk,
    Read,
    ReadOk { value: usize },
    Gossip { value: usize },
    GossipOk { value: usize },
}

/// The sum of a sequence of counters.
pub open spec fn sum(s: Seq<usize>) -> int
    decreases s.len(),
{
    if s.len() == 0 {
        0
    } else {
        s[0] + sum(s.skip(1))
    }
}

/// A sum of counters is never negative.
pub proof fn lemma_sum_nonneg(s: Seq<usize>)
    ensures
        0 <= sum(s),
    decreases s.len(),
{
    if s.len() > 0 {
        lemma_sum_nonneg(s.skip(1));
    }
}

/// The grow-only counter workload: a private monotone accumulator, and for
/// every other node the highest accumulator value observed from it and the
/// highest value it confirmed receiving from us. The three vectors
/// `peers`/`observed`/`confirmed` run parallel.
pub struct CounterNode {
    pub id: String,
    pub acc: usize,
    pub peers: Vec<String>,
    pub observed: Vec<usize>,
    pub confirmed: Vec<usize>,
}

impl CounterNode {
    /// The per-peer vectors run parallel to a duplicate-free peer list that
    /// does not name this node.
    pub open spec fn wf(self) -> bool {
        &&& self.observed@.len() == self.peers@.len()
        &&& self.confirmed@.len() == self.peers@.len()
        &&& distinct_ids(self.peers@)
        &&& !has_node(self.peers@, self.id@)
    }

    /// What this node answers to a read: its own accumulator plus everything
    /// observed from its peers.
    pub open spec fn read_value(self) -> int {
        self.acc + sum(self.observed@)
    }

    /// A node with nothing counted and no peers yet.
    pub fn new() -> (r: Self)
        ensures
            r.wf(),
            r.acc == 0,
            r.id@ == Seq::<char>::empty(),
            r.peers@ == Seq::<String>::empty(),
    {
        CounterNode {
            id: String::new(),
            acc: 0,
            peers: Vec::new(),
            observed: Vec::new(),
            confirmed: Vec::new(),
        }
    }

    /// Adopts the cluster membership: every node but this one becomes a peer,
    /// with nothing observed and nothing confirmed.
    pub fn init(&mut self, init: Init)
        requires
            old(self).wf(),
            distinct_ids(init.nodes@),
            exists|i: int| 0 <= i < init.nodes@.len() && init.nodes@[i]@ == init.id@,
        ensures
            final(self).wf(),
            final(self).id == init.id,
            final(self).acc == old(self).acc,
            final(self).peers@ == init.nodes@.remove(
                node_index(init.nodes@, init.id@),
            ),
            forall|i: int|
                0 <= i < final(self).observed@.len() ==> #[trigger] final(self).observed@[i] == 0,
            forall|i: int|
                0 <= i < final(self).confirmed@.len() ==> #[trigger] final(self).confirmed@[i]
                    == 0,
    {
        let n = init.nodes.len();
        let ghost mi = node_index(init.nodes@, init.id@);
        let mut peers: Vec<String> = Vec::new();
        let mut observed: Vec<usize> = Vec::new();
        let mut confirmed: Vec<usize> = Vec::new();
        let mut i: usize = 0;
        while i < n
            invariant
                i <= n,
                n == init.nodes@.len(),
                0 <= mi < n,
                init.nodes@[mi]@ == init.id@,
                distinct_ids(init.nodes@),
                i <= mi ==> peers@ == init.nodes@.subrange(0, i as int),
                i > mi ==> peers@ == init.nodes@.subrange(0, i as int).remove(mi),
                observed@.len() == peers@.len(),
                confirmed@.len() == peers@.len(),
                forall|j: int| 0 <= j < observed@.len() ==> #[trigger] observed@[j] == 0,
                forall|j: int| 0 <= j < confirmed@.len() ==> #[trigger] confirmed@[j] == 0,
            decreases n - i,
        {
            proof {
                assert(init.nodes@.subrange(0, i as int + 1).drop_last() =~= init.nodes@.subrange(
                    0,
                    i as int,
                ));
                if i > mi {
                    assert(init.nodes@.subrange(0, i as int + 1).remove(mi) =~= init.nodes@
                        .subrange(0, i as int).remove(mi).push(init.nodes@[i as int]));
                } else if i < mi {
                    assert(init.nodes@.subrange(0, i as int + 1) =~= init.nodes@.subrange(
                        0,
                        i as int,
                    ).push(init.nodes@[i as int]));
                }
            }
            if !(init.nodes[i] == init.id) {
                proof {
                    assert(i as int != mi);
                }
                peers.push(init.nodes[i].clone());
                observed.push(0);
                confirmed.push(0);
            } else {
                proof {
                    assert(i as int == mi);
                }
            }
            i = i + 1;
        }
        proof {
            assert(init.nodes@.subrange(0, n as int) =~= init.nodes@);
        }
        self.id = init.id;
        self.peers = peers;
        self.observed = observed;
        self.confirmed = confirmed;
        proof {
            assert forall|j: int| 0 <= j < self.peers@.len() implies self.peers@[j]@ != self.id@ by {
                assert(self.peers@[j] == if j < mi {
                    init.nodes@[j]
                } else {
                    init.nodes@[j + 1]
                });
            }
            assert forall|j: int, k: int|
                0 <= j < k < self.peers@.len() implies self.peers@[j]@ != self.peers@[k]@ by {
                assert(self.peers@[j] == if j < mi {
                    init.nodes@[j]
                } else {
                    init.nodes@[j + 1]
                });
                assert(self.peers@[k] == if k < mi {
                    init.nodes@[k]
                } else {
                    init.nodes@[k + 1]
                });
            }
        }
    }

    /// Absorbs one request. An `add` grows the accumulator and is
    /// acknowledged; a `read` is answered with the accumulator plus
    /// everything observed; `gossip{value}` from a peer lifts what is
    /// observed from it to at least `value` and is confirmed back with the
    /// same value; `gossip_ok{value}` from a peer lifts what it has confirmed
    /// to at least `value`.
    pub fn message(&mut self, message: Message<CounterPayload>, out: &mut Outbox<CounterPayload>)
        requires
            old(self).wf(),
            !(message.body.payload is AddOk),
            !(message.body.payload is ReadOk),
            message.body.payload matches CounterPayload::Add { delta } ==> old(self).acc + delta
                <= usize::MAX,
            message.body.payload is Read ==> old(self).read_value() <= usize::MAX,
        ensures
            final(self).wf(),
            final(self).id == old(self).id,
            final(self).peers == old(self).peers,
            match message.body.payload {
                CounterPayload::Add { delta } => {
                    &&& final(self).acc == old(self).acc + delta
                    &&& final(self).observed == old(self).observed
                    &&& final(self).confirmed == old(self).confirmed
                    &&& final(out).queue@ == old(out).queue@.push(
                        Outbound {
                            dst: message.src,
                            reply: message.body.id,
                            payload: CounterPayload::AddOk,
                        },
                    )
                },
                CounterPayload::Read => {
                    &&& *final(self) == *old(self)
                    &&& final(out).queue@ == old(out).queue@.push(
                        Outbound {
                            dst: message.src,
                            reply: message.body.id,
                            payload: CounterPayload::ReadOk { value: old(self).read_value() as usize },
                        },
                    )
                },
                CounterPayload::Gossip { value } => {
                    &&& final(self).acc == old(self).acc
                    &&& final(self).confirmed == old(self).confirmed
                    &&& (if has_node(old(self).peers@, message.src@) {
                        final(self).observed@ == old(self).observed@.update(
                            node_index(old(self).peers@, message.src@),
                            if value > old(self).observed@[node_index(
                                old(self).peers@,
                                message.src@,
                            )] {
                                value
                            } else {
                                old(self).observed@[node_index(old(self).peers@, message.src@)]
                            },
                        )
                    } else {
                        final(self).observed == old(self).observed
                    })
                    &&& final(out).queue@ == old(out).queue@.push(
                        Outbound {
                            dst: message.src,
                            reply: message.body.id,
                            payload: CounterPayload::GossipOk { value },
                        },
                    )
                },
                CounterPayload::GossipOk { value } => {
                    &&& final(self).acc == old(self).acc
                    &&& final(self).observed == old(self).observed
                    &&& (if has_node(old(self).peers@, message.src@) {
                        final(self).confirmed@ == old(self).confirmed@.update(
                            node_index(old(self).peers@, message.src@),
                            if value > old(self).confirmed@[node_index(
                                old(self).peers@,
                                message.src@,
                            )] {
                                value
                            } else {
                                old(self).confirmed@[node_index(old(self).peers@, message.src@)]
                            },
                        )
                    } else {
                        final(self).confirmed == old(self).confirmed
                    })
                    &&& final(out).queue@ == old(out).queue@
                },
                _ => false,
            },
    {
        let dst = message.src;
        let rply = message.body.id;

        match message.body.payload {
            CounterPayload::Add { delta } => {
                self.acc = self.acc + delta;
                out.send(dst, rply, CounterPayload::AddOk);
            },
            CounterPayload::Read => {
                let value = self.acc + self.sum_observed();
                out.send(dst, rply, CounterPayload::ReadOk { value });
            },
            CounterPayload::Gossip { value } => {
                match self.find_peer(&dst) {
                    Some(pi) => {
                        if value > self.observed[pi] {
                            self.observed.set(pi, value);
                        } else {
                            proof {
                                assert(self.observed@ =~= self.observed@.update(
                                    pi as int,
                                    self.observed@[pi as int],
                                ));
                            }
                        }
                    },
                    None => {
                    },
                }
                out.send(dst, rply, CounterPayload::GossipOk { value });
            },
            CounterPayload::GossipOk { value } => {
                match self.find_peer(&dst) {
                    Some(pi) => {
                        if value > self.confirmed[pi] {
                            self.confirmed.set(pi, value);
                        } else {
                            proof {
                                assert(self.confirmed@ =~= self.confirmed@.update(
                                    pi as int,
                                    self.confirmed@[pi as int],
                                ));
                            }
                        }
                    },
                    None => {
                    },
                }
            },
            _ => {
            },
        }
    }

    /// Gossips the accumulator to every peer that has not confirmed it yet:
    /// the appended messages carry the accumulator, address only such peers,
    /// and every such peer is addressed.
    pub fn event(&mut self, out: &mut Outbox<CounterPayload>)
        requires
            old(self).wf(),
        ensures
            *final(self) == *old(self),
            old(out).queue@.is_prefix_of(final(out).queue@),
            forall|k: int|
                old(out).queue@.len() <= k < final(out).queue@.len() ==> {
                    let m = #[trigger] final(out).queue@[k];
                    &&& m.reply is None
                    &&& m.payload == (CounterPayload::Gossip { value: old(self).acc })
                    &&& exists|j: int|
                        0 <= j < old(self).peers@.len() && m.dst == old(self).peers@[j] && old(self).confirmed@[j] < old(self).acc
                },
            forall|j: int|
                0 <= j < old(self).peers@.len() && old(self).confirmed@[j] < old(self).acc
                    ==> exists|k: int|
                    old(out).queue@.len() <= k < final(out).queue@.len() && (#[trigger] final(out).queue@[k]).dst == old(self).peers@[j],
    {
        let n = self.peers.len();
        let mut i: usize = 0;
        while i < n
            invariant
                i <= n,
                self.wf(),
                *self == *old(self),
                n == self.peers@.len(),
                old(out).queue@.is_prefix_of(out.queue@),
                forall|k: int|
                    old(out).queue@.len() <= k < out.queue@.len() ==> {
                        let m = #[trigger] out.queue@[k];
                        &&& m.reply is None
                        &&& m.payload == (CounterPayload::Gossip { value: self.acc })
                        &&& exists|j: int|
                            0 <= j < self.peers@.len() && m.dst == self.peers@[j]
                                && self.confirmed@[j] < self.acc
                    },
                forall|j: int|
                    0 <= j < i && self.confirmed@[j] < self.acc ==> exists|k: int|
                        old(out).queue@.len() <= k < out.queue@.len() && (#[trigger] out.queue@[k]).dst == self.peers@[j],
            decreases n - i,
        {
            if self.confirmed[i] < self.acc {
                let ghost prev = out.queue@;
                out.send(self.peers[i].clone(), None, CounterPayload::Gossip { value: self.acc });
                proof {
                    assert(out.queue@[prev.len() as int].dst == self.peers@[i as int]);
                    assert forall|j: int|
                        0 <= j < i + 1 && self.confirmed@[j] < self.acc implies exists|k: int|
                        old(out).queue@.len() <= k < out.queue@.len() && (#[trigger] out.queue@[k]).dst
                            == self.peers@[j] by {
                        if j < i {
                            let k0 = choose|k: int|
                                old(out).queue@.len() <= k < prev.len() && (#[trigger] prev[k]).dst
                                    == self.peers@[j];
                            assert(out.queue@[k0].dst == self.peers@[j]);
                        } else {
                            assert(out.queue@[prev.len() as int].dst == self.peers@[j]);
                        }
                    }
                }
            }
            i = i + 1;
        }
    }

    /// The sum of everything observed from the peers.
    fn sum_observed(&self) -> (s: usize)
        requires
            self.wf(),
            self.acc + sum(self.observed@) <= usize::MAX,
        ensures
            s == sum(self.observed@),
    {
        let n = self.observed.len();
        let mut s: usize = 0;
        let mut i: usize = 0;
        proof {
            assert(self.observed@.skip(0) =~= self.observed@);
        }
        while i < n
            invariant
                i <= n,
                n == self.observed@.len(),
                self.acc + sum(self.observed@) <= usize::MAX,
                s + sum(self.observed@.skip(i as int)) == sum(self.observed@),
            decreases n - i,
        {
            proof {
                assert(self.observed@.skip(i as int).skip(1) =~= self.observed@.skip(i as int + 1));
                assert(self.observed@.skip(i as int)[0] == self.observed@[i as int]);
                lemma_sum_nonneg(self.observed@.skip(i as int + 1));
            }
            s = s + self.observed[i];
            i = i + 1;
        }
        proof {
            assert(self.observed@.skip(n as int) =~= Seq::<usize>::empty());
        }
        s
    }

    /// The position of node `id` in the peer list, if it is a peer.
    fn find_peer(&self, id: &String) -> (r: Option<usize>)
        requires
            self.wf(),
        ensures
            match r {
                Some(i) => i < self.peers@.len() && self.peers@[i as int]@ == id@ && i as int
                    == node_index(self.peers@, id@),
                None => !has_node(self.peers@, id@),
            },
    {
        let n = self.peers.len();
        let mut i: usize = 0;
        while i < n
            invariant
                i <= n,
                self.wf(),
                n == self.peers@.len(),
                forall|j: int| 0 <= j < i ==> self.peers@[j]@ != id@,
            decreases n - i,
        {
            if self.peers[i] == *id {
                proof {
                    assert(has_node(self.peers@, id@));
                    let w = node_index(self.peers@, id@);
                    assert(self.peers@[w]@ == id@);
                    assert(w == i as int);
                }
                return Some(i);
            }
            i = i + 1;
        }
        None
    }
}

/// Summing elementwise smaller counters gives a smaller sum.
pub proof fn lemma_sum_le(a: Seq<usize>, b: Seq<usize>)
    requires
        a.len() == b.len(),
        forall|i: int| 0 <= i < a.len() ==> a[i] <= b[i],
    ensures
        sum(a) <= sum(b),
    decreases a.len(),
{
    if a.len() > 0 {
        assert(forall|i: int| 0 <= i < a.skip(1).len() ==> a.skip(1)[i] <= b.skip(1)[i]);
        lemma_sum_le(a.skip(1), b.skip(1));
    }
}

/// Law: a node's read never exceeds the true global sum. What a node has
/// observed from each peer is some value that peer's accumulator once held,
/// accumulators only grow, and every `add` lands in exactly one accumulator;
/// so with `own` this node's accumulator and `actual` the peers' present
/// accumulators, the read answer `own + sum(observed)` is bounded by the
/// global sum `own + sum(actual)`.
pub proof fn lemma_read_never_exceeds_global_sum(own: usize, observed: Seq<usize>, actual: Seq<usize>)
    requires
        observed.len() == actual.len(),
        forall|i: int| 0 <= i < observed.len() ==> observed[i] <= actual[i],
    ensures
        own + sum(observed) <= own + sum(actual),
{
    lemma_sum_le(observed, actual);
}

} // verus!
