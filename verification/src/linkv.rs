use std::rc::Rc;

use vstd::prelude::*;

use crate::node::{Init, Message, Outbound, Outbox};
use crate::raft::{Delivery, Raft, Rpc, RpcType, VoteRequest, VoteResponse, AppendResponse,
    ForwardRequest, distinct_ids};
use crate::value::{Value, deep_eq, rc_clone};

verus! {

/// The Maelstrom error code for a CAS on a missing key.
pub const KEY_MISSING: usize = 20;

/// The Maelstrom error code for a CAS whose expected value does not match.
pub const VALUE_MISMATCH: usize = 22;

/// A state-machine command of the linearizable KV.
pub enum Command {
    Write { key: Rc<Value>, value: Rc<Value> },
    Cas { key: Rc<Value>, from: Rc<Value>, to: Rc<Value> },
}

/// A command as replicated: the node it entered at, the request id and
/// client to answer, and the operation itself.
pub struct RaftCommand {
    pub origin: String,
    pub reply: (usize, String),
    pub command: Command,
}

impl Command {
    /// A copy of this operation, equal to the original.
    pub fn duplicate(&self) -> (r: Self)
        ensures
            r == *self,
    {
        match self {
            Command::Write { key, value } => Command::Write {
                key: rc_clone(key),
                value: rc_clone(value),
            },
            Command::Cas { key, from, to } => Command::Cas {
                key: rc_clone(key),
                from: rc_clone(from),
                to: rc_clone(to),
            },
        }
    }
}

impl crate::raft::Command for RaftCommand {
    fn duplicate(&self) -> (r: Self)
        ensures
            r == *self,
    {
        RaftCommand {
            origin: self.origin.clone(),
            reply: (self.reply.0, self.reply.1.clone()),
            command: self.command.duplicate(),
        }
    }
}

/// The linearizable KV workload's messages.
pub enum LinkvPayload {
    Read { key: Rc<Value> },
    ReadOk { value: Option<Rc<Value>> },
    Write { key: Rc<Value>, value: Rc<Value> },
    WriteOk,
    Cas { key: Rc<Value>, from: Rc<Value>, to: Rc<Value> },
    CasOk,
    Error { code: usize },
    Raft { rpc: Rpc<RaftCommand> },
}

/// Whether the store holds the key, structurally.
pub open spec fn store_has(s: Seq<(Rc<Value>, Rc<Value>)>, k: Value) -> bool {
    exists|i: int| 0 <= i < s.len() && deep_eq(*s[i].0, k)
}

/// The position of the key's entry; with pairwise distinct keys there is
/// exactly one.
pub open spec fn store_at(s: Seq<(Rc<Value>, Rc<Value>)>, k: Value) -> int {
    choose|i: int| 0 <= i < s.len() && deep_eq(*s[i].0, k)
}

/// Pairwise structurally distinct keys.
pub open spec fn distinct_store(s: Seq<(Rc<Value>, Rc<Value>)>) -> bool {
    forall|i: int, j: int| 0 <= i < j < s.len() ==> !deep_eq(*s[i].0, *s[j].0)
}

/// The store after one committed command: a write upserts its key, a CAS
/// replaces the value only when the present value matches its expectation.
pub open spec fn kv_apply(s: Seq<(Rc<Value>, Rc<Value>)>, cmd: Command) -> Seq<
    (Rc<Value>, Rc<Value>),
> {
    match cmd {
        Command::Write { key, value } => {
            if store_has(s, *key) {
                s.update(store_at(s, *key), (s[store_at(s, *key)].0, value))
            } else {
                s.push((key, value))
            }
        },
        Command::Cas { key, from, to } => {
            if store_has(s, *key) && deep_eq(*s[store_at(s, *key)].1, *from) {
                s.update(store_at(s, *key), (s[store_at(s, *key)].0, to))
            } else {
                s
            }
        },
    }
}

/// What a committed command answers its client: a write succeeds; a CAS
/// succeeds on a match, reports a missing key, or reports a mismatch.
pub open spec fn kv_result(s: Seq<(Rc<Value>, Rc<Value>)>, cmd: Command) -> LinkvPayload {
    match cmd {
        Command::Write { .. } => LinkvPayload::WriteOk,
        Command::Cas { key, from, .. } => {
            if !store_has(s, *key) {
                LinkvPayload::Error { code: KEY_MISSING }
            } else if deep_eq(*s[store_at(s, *key)].1, *from) {
                LinkvPayload::CasOk
            } else {
                LinkvPayload::Error { code: VALUE_MISMATCH }
            }
        },
    }
}

/// The store after a run of committed commands, applied in order.
pub open spec fn store_after(s: Seq<(Rc<Value>, Rc<Value>)>, cmds: Seq<Command>) -> Seq<
    (Rc<Value>, Rc<Value>),
>
    decreases cmds.len(),
{
    if cmds.len() == 0 {
        s
    } else {
        store_after(kv_apply(s, cmds[0]), cmds.skip(1))
    }
}

/// The operations inside a run of replicated commands.
pub open spec fn inner_cmds(cmds: Seq<RaftCommand>) -> Seq<Command> {
    cmds.map_values(|c: RaftCommand| c.command)
}

/// What a drain of committed commands appends to the queue: each command is
/// applied to the store in order, and exactly those that entered at this node
/// are answered, in order, to their recorded client and request, with the
/// result the command had on the store it met.
pub open spec fn replies_match(
    s: Seq<(Rc<Value>, Rc<Value>)>,
    cmds: Seq<RaftCommand>,
    selfid: Seq<char>,
    appended: Seq<Outbound<LinkvPayload>>,
) -> bool
    decreases cmds.len(),
{
    if cmds.len() == 0 {
        appended.len() == 0
    } else {
        let c = cmds[0];
        if c.origin@ == selfid {
            &&& appended.len() > 0
            &&& appended[0] == (Outbound {
                dst: c.reply.1,
                reply: Some(c.reply.0),
                payload: kv_result(s, c.command),
            })
            &&& replies_match(kv_apply(s, c.command), cmds.skip(1), selfid, appended.skip(1))
        } else {
            replies_match(kv_apply(s, c.command), cmds.skip(1), selfid, appended)
        }
    }
}

/// Running one more committed command extends the drain relation.
proof fn lemma_replies_push(
    s: Seq<(Rc<Value>, Rc<Value>)>,
    cmds: Seq<RaftCommand>,
    selfid: Seq<char>,
    appended: Seq<Outbound<LinkvPayload>>,
    c: RaftCommand,
    more: Seq<Outbound<LinkvPayload>>,
)
    requires
        replies_match(s, cmds, selfid, appended),
        c.origin@ == selfid ==> more =~= seq![
            Outbound {
                dst: c.reply.1,
                reply: Some(c.reply.0),
                payload: kv_result(store_after(s, inner_cmds(cmds)), c.command),
            },
        ],
        c.origin@ != selfid ==> more =~= Seq::<Outbound<LinkvPayload>>::empty(),
    ensures
        replies_match(s, cmds.push(c), selfid, appended + more),
        store_after(s, inner_cmds(cmds.push(c))) == kv_apply(
            store_after(s, inner_cmds(cmds)),
            c.command,
        ),
    decreases cmds.len(),
{
    assert(inner_cmds(cmds.push(c)) =~= inner_cmds(cmds).push(c.command));
    if cmds.len() == 0 {
        assert(cmds.push(c)[0] == c);
        assert(cmds.push(c).skip(1) =~= Seq::<RaftCommand>::empty());
        assert(inner_cmds(cmds) =~= Seq::<Command>::empty());
        assert(store_after(s, inner_cmds(cmds)) == s);
        assert(inner_cmds(cmds.push(c)).skip(1) =~= Seq::<Command>::empty());
        assert(inner_cmds(cmds.push(c))[0] == c.command);
        assert(store_after(kv_apply(s, c.command), Seq::<Command>::empty()) == kv_apply(
            s,
            c.command,
        ));
        assert(store_after(s, inner_cmds(cmds.push(c))) == kv_apply(s, c.command));
        if c.origin@ == selfid {
            assert((appended + more).len() == 1);
            assert((appended + more)[0] == more[0]);
            assert((appended + more).skip(1) =~= Seq::<Outbound<LinkvPayload>>::empty());
            assert(replies_match(kv_apply(s, c.command), cmds.push(c).skip(1), selfid, (appended
                + more).skip(1)));
        } else {
            assert(appended + more =~= Seq::<Outbound<LinkvPayload>>::empty());
            assert(replies_match(kv_apply(s, c.command), cmds.push(c).skip(1), selfid, appended
                + more));
        }
    } else {
        let c0 = cmds[0];
        assert(cmds.push(c)[0] == c0);
        assert(cmds.push(c).skip(1) =~= cmds.skip(1).push(c));
        assert(inner_cmds(cmds).skip(1) =~= inner_cmds(cmds.skip(1)));
        assert(inner_cmds(cmds)[0] == c0.command);
        assert(store_after(s, inner_cmds(cmds)) == store_after(
            kv_apply(s, c0.command),
            inner_cmds(cmds.skip(1)),
        ));
        if c0.origin@ == selfid {
            assert((appended + more).skip(1) =~= appended.skip(1) + more);
            assert((appended + more)[0] == appended[0]);
            lemma_replies_push(
                kv_apply(s, c0.command),
                cmds.skip(1),
                selfid,
                appended.skip(1),
                c,
                more,
            );
        } else {
            lemma_replies_push(kv_apply(s, c0.command), cmds.skip(1), selfid, appended, c, more);
        }
        assert(inner_cmds(cmds.push(c)).skip(1) =~= inner_cmds(cmds.skip(1)).push(c.command));
        assert(inner_cmds(cmds.skip(1).push(c)) =~= inner_cmds(cmds.skip(1)).push(c.command));
        assert(inner_cmds(cmds.push(c))[0] == c0.command);
        assert(store_after(s, inner_cmds(cmds.push(c))) == store_after(
            kv_apply(s, c0.command),
            inner_cmds(cmds.skip(1)).push(c.command),
        ));
        assert(store_after(kv_apply(s, c0.command), inner_cmds(cmds.skip(1)).push(c.command))
            == kv_apply(store_after(kv_apply(s, c0.command), inner_cmds(cmds.skip(1))), c.command));
    }
}

/// What handing one outbound consensus action to the queue does: a unicast
/// appends one wrapped message, a broadcast one per other node in membership
/// order, a multicast one per listed pair in order; nothing else moves.
pub open spec fn delivery_sent(
    others: Seq<String>,
    d: Option<Delivery<RaftCommand>>,
    oldq: Seq<Outbound<LinkvPayload>>,
    newq: Seq<Outbound<LinkvPayload>>,
) -> bool {
    match d {
        None => newq == oldq,
        Some(Delivery::Unicast(to, rpc)) => newq == oldq.push(
            Outbound { dst: to, reply: None, payload: LinkvPayload::Raft { rpc } },
        ),
        Some(Delivery::Broadcast(rpc)) => {
            &&& newq.len() == oldq.len() + others.len()
            &&& oldq.is_prefix_of(newq)
            &&& (forall|k: int|
                oldq.len() <= k < newq.len() ==> (#[trigger] newq[k]) == (Outbound {
                    dst: others[k - oldq.len()],
                    reply: None,
                    payload: LinkvPayload::Raft { rpc },
                }))
        },
        Some(Delivery::Multicast(msgs)) => {
            &&& newq.len() == oldq.len() + msgs@.len()
            &&& oldq.is_prefix_of(newq)
            &&& (forall|k: int|
                oldq.len() <= k < newq.len() ==> (#[trigger] newq[k]) == (Outbound {
                    dst: msgs@[k - oldq.len()].0,
                    reply: None,
                    payload: LinkvPayload::Raft { rpc: msgs@[k - oldq.len()].1 },
                }))
        },
    }
}

/// The linearizable KV node: the materialised store and the consensus engine
/// that orders the commands.
pub struct LinkvNode {
    pub store: Vec<(Rc<Value>, Rc<Value>)>,
    pub raft: Raft<RaftCommand>,
}

impl LinkvNode {
    /// The store holds no key twice and the engine is well formed.
    pub open spec fn wf(self) -> bool {
        &&& distinct_store(self.store@)
        &&& self.raft.wf()
    }

    /// A node with an empty store, before the membership is known.
    pub fn new() -> (r: Self)
        ensures
            r.wf(),
            r.store@ == Seq::<(Rc<Value>, Rc<Value>)>::empty(),
    {
        let mut nodes: Vec<String> = Vec::new();
        let id = String::new();
        nodes.push(String::new());
        proof {
            assert(nodes@[0]@ == id@);
        }
        LinkvNode { store: Vec::new(), raft: Raft::new(id, nodes) }
    }

    /// Adopts the cluster membership with a fresh engine.
    pub fn init(&mut self, init: Init)
        requires
            old(self).wf(),
            distinct_ids(init.nodes@),
            exists|i: int| 0 <= i < init.nodes@.len() && init.nodes@[i]@ == init.id@,
        ensures
            final(self).wf(),
            final(self).store == old(self).store,
            final(self).raft.topology.id == init.id,
            final(self).raft.topology.nodes == init.nodes,
            final(self).raft.persistent.term == 0,
            final(self).raft.persistent.log@ == Seq::<crate::raft::Log<RaftCommand>>::empty(),
            final(self).raft.transient.role == crate::raft::Role::Follower,
    {
        self.raft = Raft::new(init.id, init.nodes);
    }

    /// Hands one outbound consensus action to the queue: see `delivery_sent`.
    fn send_raft(&self, delivery: Delivery<RaftCommand>, out: &mut Outbox<LinkvPayload>)
        requires
            self.wf(),
            delivery matches Delivery::Broadcast(rpc) ==> !(rpc.payload is AppendRequest),
        ensures
            delivery_sent(
                self.raft.topology.nodes@.remove(self.raft.me as int),
                Some(delivery),
                old(out).queue@,
                final(out).queue@,
            ),
    {
        match delivery {
            Delivery::Unicast(dest, rpc) => {
                out.send(dest, None, LinkvPayload::Raft { rpc });
            },
            Delivery::Broadcast(rpc) => {
                let others = self.raft.others();
                let n = others.len();
                let mut i: usize = 0;
                while i < n
                    invariant
                        i <= n,
                        n == others@.len(),
                        !(rpc.payload is AppendRequest),
                        out.queue@.len() == old(out).queue@.len() + i,
                        old(out).queue@.is_prefix_of(out.queue@),
                        forall|k: int|
                            old(out).queue@.len() <= k < out.queue@.len() ==> (
                            #[trigger] out.queue@[k]) == (Outbound {
                                dst: others@[k - old(out).queue@.len()],
                                reply: None,
                                payload: LinkvPayload::Raft { rpc },
                            }),
                    decreases n - i,
                {
                    let copy = duplicate_flat(&rpc);
                    out.send(others[i].clone(), None, LinkvPayload::Raft { rpc: copy });
                    i = i + 1;
                }
            },
            Delivery::Multicast(msgs) => {
                let n = msgs.len();
                let mut msgs = msgs;
                let ghost mview = msgs@;
                let mut i: usize = 0;
                while i < n
                    invariant
                        i <= n,
                        n == mview.len(),
                        msgs@ == mview.skip(i as int),
                        out.queue@.len() == old(out).queue@.len() + i,
                        old(out).queue@.is_prefix_of(out.queue@),
                        forall|k: int|
                            old(out).queue@.len() <= k < out.queue@.len() ==> (
                            #[trigger] out.queue@[k]) == (Outbound {
                                dst: mview[k - old(out).queue@.len()].0,
                                reply: None,
                                payload: LinkvPayload::Raft {
                                    rpc: mview[k - old(out).queue@.len()].1,
                                },
                            }),
                    decreases n - i,
                {
                    proof {
                        assert(msgs@[0] == mview[i as int]);
                        assert(msgs@.skip(1) =~= mview.skip(i as int + 1));
                    }
                    let (dest, rpc) = msgs.remove(0);
                    out.send(dest, None, LinkvPayload::Raft { rpc });
                    i = i + 1;
                }
            },
        }
    }

    /// Submits one command and hands the engine's outbound action, if any, to
    /// the queue.
    fn apply_raft(&mut self, command: RaftCommand, out: &mut Outbox<LinkvPayload>)
        requires
            old(self).wf(),
            old(self).raft.transient.role == crate::raft::Role::Leader ==> old(
                self,
            ).raft.persistent.log@.len() < usize::MAX,
        ensures
            final(self).wf(),
            final(self).store == old(self).store,
            exists|d: Option<Delivery<RaftCommand>>|
                {
                    &&& #[trigger] Raft::<RaftCommand>::apply_post(
                        old(self).raft,
                        final(self).raft,
                        command,
                        d,
                    )
                    &&& delivery_sent(
                        old(self).raft.topology.nodes@.remove(old(self).raft.me as int),
                        d,
                        old(out).queue@,
                        final(out).queue@,
                    )
                },
    {
        let d = self.raft.apply(command);
        let ghost dg = d;
        match d {
            Some(delivery) => {
                self.send_raft(delivery, out);
            },
            None => {
            },
        }
        proof {
            assert(Raft::<RaftCommand>::apply_post(old(self).raft, self.raft, command, dg));
        }
    }

    /// Drains every newly committed command: applies each to the store in
    /// order and answers the ones that entered here, as `replies_match` says.
    pub fn drain_committed(&mut self, out: &mut Outbox<LinkvPayload>)
        requires
            old(self).wf(),
        ensures
            final(self).wf(),
            final(self).raft.persistent == old(self).raft.persistent,
            final(self).raft.topology == old(self).raft.topology,
            final(self).raft.me == old(self).raft.me,
            final(self).raft.timer == old(self).raft.timer,
            final(self).raft.transient.role == old(self).raft.transient.role,
            final(self).raft.transient.leader == old(self).raft.transient.leader,
            final(self).raft.transient.votes_received == old(self).raft.transient.votes_received,
            final(self).raft.transient.sent_len == old(self).raft.transient.sent_len,
            final(self).raft.transient.acked_len == old(self).raft.transient.acked_len,
            final(self).raft.transient.consumed == old(self).raft.persistent.commit_len,
            old(out).queue@.is_prefix_of(final(out).queue@),
            final(self).store@ == store_after(
                old(self).store@,
                inner_cmds(committed_run(old(self).raft)),
            ),
            replies_match(
                old(self).store@,
                committed_run(old(self).raft),
                old(self).raft.topology.id@,
                final(out).queue@.skip(old(out).queue@.len() as int),
            ),
    {
        let ghost qbase = out.queue@.len();
        proof {
            assert(committed_entries(old(self).raft, old(self).raft.transient.consumed as int)
                =~= Seq::<RaftCommand>::empty());
            assert(out.queue@.skip(qbase as int) =~= Seq::<Outbound<LinkvPayload>>::empty());
        }
        while self.raft.transient.consumed < self.raft.persistent.commit_len
            invariant
                self.wf(),
                self.raft.persistent == old(self).raft.persistent,
                self.raft.topology == old(self).raft.topology,
                self.raft.me == old(self).raft.me,
                self.raft.timer == old(self).raft.timer,
                self.raft.transient.role == old(self).raft.transient.role,
                self.raft.transient.leader == old(self).raft.transient.leader,
                self.raft.transient.votes_received == old(self).raft.transient.votes_received,
                self.raft.transient.sent_len == old(self).raft.transient.sent_len,
                self.raft.transient.acked_len == old(self).raft.transient.acked_len,
                old(self).raft.transient.consumed <= self.raft.transient.consumed,
                qbase <= out.queue@.len(),
                old(out).queue@ == out.queue@.subrange(0, qbase as int),
                qbase == old(out).queue@.len(),
                self.store@ == store_after(
                    old(self).store@,
                    inner_cmds(
                        committed_entries(old(self).raft, self.raft.transient.consumed as int),
                    ),
                ),
                replies_match(
                    old(self).store@,
                    committed_entries(old(self).raft, self.raft.transient.consumed as int),
                    old(self).raft.topology.id@,
                    out.queue@.skip(qbase as int),
                ),
            decreases self.raft.persistent.commit_len - self.raft.transient.consumed,
        {
            let ghost done = committed_entries(
                old(self).raft,
                self.raft.transient.consumed as int,
            );
            let ghost qmid = out.queue@;
            let popped = self.raft.consume();
            let action = match popped {
                Some(action) => action,
                None => {
                    proof {
                        assert(false);
                    }
                    return ;
                },
            };
            let result = self.apply_command(&action.command);
            let is_ours = action.origin == self.raft.topology.id;
            if is_ours {
                out.send(action.reply.1, Some(action.reply.0), result);
            }
            proof {
                assert(committed_entries(old(self).raft, self.raft.transient.consumed as int)
                    =~= done.push(action));
                if is_ours {
                    assert(out.queue@.skip(qbase as int) =~= qmid.skip(qbase as int) + seq![
                        Outbound {
                            dst: action.reply.1,
                            reply: Some(action.reply.0),
                            payload: kv_result(store_after(
                                old(self).store@,
                                inner_cmds(done),
                            ), action.command),
                        },
                    ]);
                    lemma_replies_push(
                        old(self).store@,
                        done,
                        old(self).raft.topology.id@,
                        qmid.skip(qbase as int),
                        action,
                        seq![
                            Outbound {
                                dst: action.reply.1,
                                reply: Some(action.reply.0),
                                payload: kv_result(store_after(
                                    old(self).store@,
                                    inner_cmds(done),
                                ), action.command),
                            },
                        ],
                    );
                } else {
                    assert(out.queue@.skip(qbase as int) =~= qmid.skip(qbase as int));
                    lemma_replies_push(
                        old(self).store@,
                        done,
                        old(self).raft.topology.id@,
                        qmid.skip(qbase as int),
                        action,
                        Seq::<Outbound<LinkvPayload>>::empty(),
                    );
                }
            }
        }
        proof {
            assert(committed_run(old(self).raft) =~= committed_entries(
                old(self).raft,
                self.raft.transient.consumed as int,
            ));
            assert(old(out).queue@.is_prefix_of(out.queue@));
        }
    }

    /// Applies one committed command to the store and returns the client's
    /// answer.
    fn apply_command(&mut self, cmd: &Command) -> (r: LinkvPayload)
        requires
            old(self).wf(),
        ensures
            final(self).wf(),
            final(self).raft == old(self).raft,
            final(self).store@ == kv_apply(old(self).store@, *cmd),
            r == kv_result(old(self).store@, *cmd),
    {
        match cmd {
            Command::Write { key, value } => {
                let found = self.find_key(key);
                match found {
                    Some(ai) => {
                        let prev = self.store.remove(ai);
                        self.store.insert(ai, (prev.0, rc_clone(value)));
                        proof {
                            assert(self.store@ =~= kv_apply(old(self).store@, *cmd));
                        }
                    },
                    None => {
                        self.store.push((rc_clone(key), rc_clone(value)));
                        proof {
                            assert(self.store@ =~= kv_apply(old(self).store@, *cmd));
                            assert(distinct_store(self.store@)) by {
                                assert(self.store@.drop_last() =~= old(self).store@);
                            }
                        }
                    },
                }
                LinkvPayload::WriteOk
            },
            Command::Cas { key, from, to } => {
                let found = self.find_key(key);
                match found {
                    Some(ai) => {
                        if self.store[ai].1.equals(from) {
                            let prev = self.store.remove(ai);
                            self.store.insert(ai, (prev.0, rc_clone(to)));
                            proof {
                                assert(self.store@ =~= kv_apply(old(self).store@, *cmd));
                            }
                            LinkvPayload::CasOk
                        } else {
                            LinkvPayload::Error { code: VALUE_MISMATCH }
                        }
                    },
                    None => LinkvPayload::Error { code: KEY_MISSING },
                }
            },
        }
    }

    /// What a full drain leaves of the engine: everything as it was, with
    /// consumption caught up to the commit mark.
    pub open spec fn drained(mid: Raft<RaftCommand>, post: Raft<RaftCommand>) -> bool {
        &&& post.persistent == mid.persistent
        &&& post.topology == mid.topology
        &&& post.me == mid.me
        &&& post.timer == mid.timer
        &&& post.transient.role == mid.transient.role
        &&& post.transient.leader == mid.transient.leader
        &&& post.transient.votes_received == mid.transient.votes_received
        &&& post.transient.sent_len == mid.transient.sent_len
        &&& post.transient.acked_len == mid.transient.acked_len
        &&& post.transient.consumed == mid.persistent.commit_len
    }

    /// Absorbs one request. A `read` is answered from the local store,
    /// out-of-band of the log (dirty-read semantics, by design); a `write` or
    /// `cas` is wrapped as a command tagged with this node and the request,
    /// and submitted through the engine; an inbound consensus message is
    /// processed, its answer queued, and every newly committed command
    /// applied and, when it entered here, answered to its original client.
    pub fn message(&mut self, message: Message<LinkvPayload>, out: &mut Outbox<LinkvPayload>)
        requires
            old(self).wf(),
            message.body.payload is Read || message.body.payload is Write
                || message.body.payload is Cas || message.body.payload is Raft,
            (message.body.payload is Write || message.body.payload is Cas) ==> message.body.id
                is Some,
            (message.body.payload is Write || message.body.payload is Cas) ==> (old(
                self,
            ).raft.transient.role == crate::raft::Role::Leader ==> old(
                self,
            ).raft.persistent.log@.len() < usize::MAX),
            message.body.payload matches LinkvPayload::Raft { rpc } ==> old(self).raft.rpc_ok(
                rpc,
            ),
        ensures
            final(self).wf(),
            match message.body.payload {
                LinkvPayload::Read { key } => {
                    &&& *final(self) == *old(self)
                    &&& final(out).queue@ == old(out).queue@.push(
                        Outbound {
                            dst: message.src,
                            reply: message.body.id,
                            payload: LinkvPayload::ReadOk {
                                value: if store_has(old(self).store@, *key) {
                                    Some(
                                        old(self).store@[store_at(old(self).store@, *key)].1,
                                    )
                                } else {
                                    None
                                },
                            },
                        },
                    )
                },
                LinkvPayload::Write { key, value } => {
                    &&& final(self).store == old(self).store
                    &&& exists|d: Option<Delivery<RaftCommand>>|
                        {
                            &&& #[trigger] Raft::<RaftCommand>::apply_post(
                                old(self).raft,
                                final(self).raft,
                                RaftCommand {
                                    origin: old(self).raft.topology.id,
                                    reply: (message.body.id->0, message.src),
                                    command: Command::Write { key, value },
                                },
                                d,
                            )
                            &&& delivery_sent(
                                old(self).raft.topology.nodes@.remove(old(self).raft.me as int),
                                d,
                                old(out).queue@,
                                final(out).queue@,
                            )
                        }
                },
                LinkvPayload::Cas { key, from, to } => {
                    &&& final(self).store == old(self).store
                    &&& exists|d: Option<Delivery<RaftCommand>>|
                        {
                            &&& #[trigger] Raft::<RaftCommand>::apply_post(
                                old(self).raft,
                                final(self).raft,
                                RaftCommand {
                                    origin: old(self).raft.topology.id,
                                    reply: (message.body.id->0, message.src),
                                    command: Command::Cas { key, from, to },
                                },
                                d,
                            )
                            &&& delivery_sent(
                                old(self).raft.topology.nodes@.remove(old(self).raft.me as int),
                                d,
                                old(out).queue@,
                                final(out).queue@,
                            )
                        }
                },
                LinkvPayload::Raft { rpc } => exists|
                    mid: Raft<RaftCommand>,
                    d: Option<Delivery<RaftCommand>>,
                    qmid: Seq<Outbound<LinkvPayload>>,
                |
                    #![trigger Raft::<RaftCommand>::process_post(
                        old(self).raft,
                        mid,
                        message.src,
                        rpc,
                        d,
                    ), delivery_sent(
                        old(self).raft.topology.nodes@.remove(old(self).raft.me as int),
                        d,
                        old(out).queue@,
                        qmid,
                    )]
                    {
                        &&& Raft::<RaftCommand>::process_post(
                            old(self).raft,
                            mid,
                            message.src,
                            rpc,
                            d,
                        )
                        &&& delivery_sent(
                            old(self).raft.topology.nodes@.remove(old(self).raft.me as int),
                            d,
                            old(out).queue@,
                            qmid,
                        )
                        &&& qmid.is_prefix_of(final(out).queue@)
                        &&& Self::drained(mid, final(self).raft)
                        &&& final(self).store@ == store_after(
                            old(self).store@,
                            inner_cmds(committed_run(mid)),
                        )
                        &&& replies_match(
                            old(self).store@,
                            committed_run(mid),
                            mid.topology.id@,
                            final(out).queue@.skip(qmid.len() as int),
                        )
                    },
                _ => false,
            },
    {
        let id = message.body.id;
        let dest = message.src;

        match message.body.payload {
            LinkvPayload::Read { key } => {
                let found = self.find_key(&key);
                let value = match found {
                    Some(ai) => Some(rc_clone(&self.store[ai].1)),
                    None => None,
                };
                out.send(dest, id, LinkvPayload::ReadOk { value });
            },
            LinkvPayload::Write { key, value } => {
                let id_num = match id {
                    Some(i) => i,
                    None => {
                        proof {
                            assert(false);
                        }
                        return ;
                    },
                };
                let command = RaftCommand {
                    origin: self.raft.id().clone(),
                    reply: (id_num, dest),
                    command: Command::Write { key, value },
                };
                self.apply_raft(command, out);
            },
            LinkvPayload::Cas { key, from, to } => {
                let id_num = match id {
                    Some(i) => i,
                    None => {
                        proof {
                            assert(false);
                        }
                        return ;
                    },
                };
                let command = RaftCommand {
                    origin: self.raft.id().clone(),
                    reply: (id_num, dest),
                    command: Command::Cas { key, from, to },
                };
                self.apply_raft(command, out);
            },
            LinkvPayload::Raft { rpc } => {
                let ghost rpcg = rpc;
                let d = self.raft.process(dest, rpc);
                let ghost midg = self.raft;
                let ghost dg = d;
                proof {
                    match dg {
                        Some(Delivery::Broadcast(b)) => {
                            assert(false);
                        },
                        _ => {
                        },
                    }
                }
                match d {
                    Some(delivery) => {
                        self.send_raft(delivery, out);
                    },
                    None => {
                    },
                }
                let ghost qmidg = out.queue@;
                self.drain_committed(out);
                proof {
                    assert(Raft::<RaftCommand>::process_post(
                        old(self).raft,
                        midg,
                        message.src,
                        rpcg,
                        dg,
                    ));
                    assert(delivery_sent(
                        old(self).raft.topology.nodes@.remove(old(self).raft.me as int),
                        dg,
                        old(out).queue@,
                        qmidg,
                    ));
                }
            },
            _ => {
            },
        }
    }

    /// Drives the engine on the periodic tick: a leader opens a replication
    /// round, another node may start an election; the outbound action, if
    /// any, goes to the queue.
    pub fn event(&mut self, out: &mut Outbox<LinkvPayload>)
        requires
            old(self).wf(),
            old(self).raft.persistent.term < u32::MAX,
        ensures
            final(self).wf(),
            final(self).store == old(self).store,
            exists|d: Option<Delivery<RaftCommand>>|
                {
                    &&& #[trigger] Raft::<RaftCommand>::tick_post(
                        old(self).raft,
                        final(self).raft,
                        d,
                    )
                    &&& delivery_sent(
                        old(self).raft.topology.nodes@.remove(old(self).raft.me as int),
                        d,
                        old(out).queue@,
                        final(out).queue@,
                    )
                },
    {
        let d = self.raft.tick();
        let ghost dg = d;
        proof {
            match dg {
                Some(Delivery::Broadcast(b)) => {
                    assert(b.payload is VoteRequest);
                },
                _ => {
                },
            }
        }
        match d {
            Some(delivery) => {
                self.send_raft(delivery, out);
            },
            None => {
            },
        }
        proof {
            assert(Raft::<RaftCommand>::tick_post(old(self).raft, self.raft, dg));
        }
    }

    /// The position of the key's entry, if the store holds the key.
    fn find_key(&self, key: &Rc<Value>) -> (r: Option<usize>)
        requires
            self.wf(),
        ensures
            match r {
                Some(i) => i < self.store@.len() && deep_eq(*self.store@[i as int].0, **key)
                    && store_has(self.store@, **key) && i as int == store_at(self.store@, **key),
                None => !store_has(self.store@, **key),
            },
    {
        let n = self.store.len();
        let mut i: usize = 0;
        while i < n
            invariant
                i <= n,
                self.wf(),
                n == self.store@.len(),
                forall|j: int| 0 <= j < i ==> !deep_eq(*self.store@[j].0, **key),
            decreases n - i,
        {
            if self.store[i].0.equals(key) {
                proof {
                    let ghost kv: Value = **key;
                    let ghost here: Value = *self.store@[i as int].0;
                    assert(store_has(self.store@, kv));
                    let w = store_at(self.store@, kv);
                    let ghost there: Value = *self.store@[w].0;
                    assert(deep_eq(there, kv));
                    if w != i as int {
                        crate::value::lemma_deep_eq_sym(here, kv);
                        crate::value::lemma_deep_eq_trans(there, kv, here);
                        crate::value::lemma_deep_eq_sym(there, here);
                        assert(false);
                    }
                }
                return Some(i);
            }
            i = i + 1;
        }
        None
    }
}

/// The commands committed but not yet consumed, up to `upto` consumed.
pub open spec fn committed_entries(r: Raft<RaftCommand>, upto: int) -> Seq<RaftCommand> {
    r.persistent.log@.subrange(r.transient.consumed as int, upto).map_values(
        |l: crate::raft::Log<RaftCommand>| l.command,
    )
}

/// The run of commands a full drain consumes: from the first unconsumed to
/// the commit mark.
pub open spec fn committed_run(r: Raft<RaftCommand>) -> Seq<RaftCommand> {
    committed_entries(r, r.persistent.commit_len as int)
}

/// A copy of a consensus message that carries no replication window. Windows
/// hold log entries, which only the engine duplicates.
fn duplicate_flat(rpc: &Rpc<RaftCommand>) -> (r: Rpc<RaftCommand>)
    requires
        !(rpc.payload is AppendRequest),
    ensures
        r == *rpc,
{
    Rpc {
        term: rpc.term,
        payload: match &rpc.payload {
            RpcType::VoteRequest(vr) => RpcType::VoteRequest(
                VoteRequest {
                    candidate: vr.candidate.clone(),
                    last_log_index: vr.last_log_index,
                    last_log_term: vr.last_log_term,
                },
            ),
            RpcType::VoteResponse(vr) => RpcType::VoteResponse(
                VoteResponse { voter: vr.voter.clone(), granted: vr.granted },
            ),
            RpcType::AppendResponse(ar) => RpcType::AppendResponse(
                AppendResponse { follower: ar.follower.clone(), ack: ar.ack },
            ),
            RpcType::ForwardRequest(fr) => RpcType::ForwardRequest(
                ForwardRequest {
                    follower: fr.follower.clone(),
                    command: crate::raft::Command::duplicate(&fr.command),
                },
            ),
            RpcType::AppendRequest(ar) => {
                proof {
                    assert(false);
                }
                RpcType::AppendResponse(AppendResponse { follower: ar.leader.clone(), ack: None })
            },
        },
    }
}

} // verus!
