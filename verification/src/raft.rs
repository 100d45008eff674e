mod command;
mod rpc;
mod state;
mod timer;

pub use command::Command;
pub use rpc::{AppendRequest, AppendResponse, ForwardRequest, Rpc, RpcType, VoteRequest, VoteResponse};
pub use state::{Log, PersistentState, Role, Topology, TransientState};
pub use timer::Timer;

use vstd::prelude::*;
use vstd::pervasive::VecAdditionalExecFns;

verus! {

/// The command-log consensus engine: fixed membership, persistent and
/// transient state, and the election timer. `me` is this node's position in
/// `topology.nodes`.
pub struct Raft<C> {
    pub topology: Topology,
    pub persistent: PersistentState<C>,
    pub transient: TransientState,
    pub timer: Timer,
    pub me: usize,
}

/// One unit of outbound network action.
pub enum Delivery<C> {
    Unicast(String, Rpc<C>),
    Broadcast(Rpc<C>),
    Multicast(Vec<(String, Rpc<C>)>),
}

/// Pairwise distinct node ids, by their characters.
pub open spec fn distinct_ids(nodes: Seq<String>) -> bool {
    forall|i: int, j: int| 0 <= i < j < nodes.len() ==> nodes[i]@ != nodes[j]@
}

/// The size of a strict majority of `n` nodes.
pub open spec fn majority(n: int) -> int {
    n / 2 + 1
}

/// Whether a node with the given characters is a member.
pub open spec fn has_node(nodes: Seq<String>, id: Seq<char>) -> bool {
    exists|i: int| 0 <= i < nodes.len() && nodes[i]@ == id
}

/// The position of the member with the given characters; with pairwise
/// distinct ids there is exactly one.
pub open spec fn node_index(nodes: Seq<String>, id: Seq<char>) -> int {
    choose|i: int| 0 <= i < nodes.len() && nodes[i]@ == id
}

/// How many entries of `s` are at least `k`.
pub open spec fn count_ge(s: Seq<usize>, k: int) -> int
    decreases s.len(),
{
    if s.len() == 0 {
        0
    } else {
        count_ge(s.drop_last(), k) + if s.last() >= k {
            1int
        } else {
            0int
        }
    }
}

/// The follower's log after absorbing a replication window `suffix` placed
/// after `prefix` entries, considered from overlap position `i` on: matching
/// terms are kept, the first divergence cuts the old tail and adopts the
/// window's remainder, and a window reaching past the log extends it.
pub open spec fn merge_from<C>(log: Seq<Log<C>>, prefix: int, suffix: Seq<Log<C>>, i: int) -> Seq<
    Log<C>,
>
    decreases suffix.len() - i,
{
    if i < 0 || i >= suffix.len() {
        log
    } else if prefix + i >= log.len() {
        log + suffix.skip(i)
    } else if log[prefix + i].term != suffix[i].term {
        log.subrange(0, prefix + i) + suffix.skip(i)
    } else {
        merge_from(log, prefix, suffix, i + 1)
    }
}

/// The follower's log after absorbing a replication window.
pub open spec fn merged<C>(log: Seq<Log<C>>, prefix: int, suffix: Seq<Log<C>>) -> Seq<Log<C>> {
    merge_from(log, prefix, suffix, 0)
}

/// Two strict majorities of one cluster of `n` nodes share a member.
pub proof fn lemma_quorum_overlap(n: int, s1: Set<int>, s2: Set<int>)
    requires
        n >= 1,
        s1.subset_of(vstd::set_lib::set_int_range(0, n)),
        s2.subset_of(vstd::set_lib::set_int_range(0, n)),
        s1.len() >= majority(n),
        s2.len() >= majority(n),
    ensures
        exists|v: int| s1.contains(v) && s2.contains(v),
{
    vstd::set_lib::lemma_int_range(0, n);
    vstd::set_lib::lemma_len_subset(s1, vstd::set_lib::set_int_range(0, n));
    vstd::set_lib::lemma_len_subset(s2, vstd::set_lib::set_int_range(0, n));
    if forall|v: int| !(#[trigger] s1.contains(v) && s2.contains(v)) {
        assert(s1.disjoint(s2));
        vstd::set_lib::lemma_set_disjoint_lens(s1, s2);
        assert((s1 + s2).len() == s1.len() + s2.len());
        vstd::set_lib::lemma_len_subset(s1 + s2, vstd::set_lib::set_int_range(0, n));
        assert(s1.len() + s2.len() <= n);
        assert(2 * (n / 2 + 1) > n);
    }
}

/// Law (election safety): in any one term at most one node becomes leader.
/// The grants of a term form a map from voter to candidate, since a node
/// grants at most one candidate per term (`grants_vote` holds only when no
/// vote for another candidate stands, and the grant records the vote), and a
/// candidate becomes leader only on a strict majority of grants
/// (`vote_response_post`). Two leaders of one term would then hold two
/// majorities granting different candidates, and the voter those majorities
/// share would have granted both.
pub proof fn lemma_election_safety(
    n: int,
    votes: Map<int, int>,
    l1: int,
    l2: int,
    s1: Set<int>,
    s2: Set<int>,
)
    requires
        n >= 1,
        s1.subset_of(vstd::set_lib::set_int_range(0, n)),
        s2.subset_of(vstd::set_lib::set_int_range(0, n)),
        s1.len() >= majority(n),
        s2.len() >= majority(n),
        forall|v: int| s1.contains(v) ==> votes.dom().contains(v) && votes[v] == l1,
        forall|v: int| s2.contains(v) ==> votes.dom().contains(v) && votes[v] == l2,
    ensures
        l1 == l2,
{
    lemma_quorum_overlap(n, s1, s2);
}

/// Entries below `c` survive a merge whose divergences all lie at or past
/// `c`, and the merged log never shrinks below `c`.
proof fn lemma_merge_preserves_prefix<C>(
    log: Seq<Log<C>>,
    prefix: int,
    suffix: Seq<Log<C>>,
    i: int,
    c: int,
)
    requires
        0 <= i,
        0 <= prefix <= log.len(),
        0 <= c <= log.len(),
        forall|j: int|
            i <= j < suffix.len() && prefix + j < log.len() && (#[trigger] log[prefix + j]).term
                != suffix[j].term ==> prefix + j >= c,
    ensures
        merge_from(log, prefix, suffix, i).len() >= c,
        forall|k: int|
            0 <= k < c ==> #[trigger] merge_from(log, prefix, suffix, i)[k] == log[k],
    decreases suffix.len() - i,
{
    if i >= suffix.len() {
    } else if prefix + i >= log.len() {
    } else if log[prefix + i].term != suffix[i].term {
        assert(prefix + i >= c);
    } else {
        lemma_merge_preserves_prefix(log, prefix, suffix, i + 1, c);
    }
}

/// How many entries of `s` are true.
pub open spec fn count_true(s: Seq<bool>) -> int
    decreases s.len(),
{
    if s.len() == 0 {
        0
    } else {
        count_true(s.drop_last()) + if s.last() {
            1int
        } else {
            0int
        }
    }
}

impl<C> Raft<C> {
    /// Structural well-formedness: `me` names this node in a duplicate-free
    /// membership, the per-peer vectors run parallel to it, the committed
    /// prefix lies within the log, consumption lags commitment, and a
    /// leader's send bookkeeping never points past its log.
    pub open spec fn wf(self) -> bool {
        &&& self.me < self.topology.nodes@.len()
        &&& self.topology.nodes@[self.me as int]@ == self.topology.id@
        &&& distinct_ids(self.topology.nodes@)
        &&& self.transient.votes_received@.len() == self.topology.nodes@.len()
        &&& self.transient.sent_len@.len() == self.topology.nodes@.len()
        &&& self.transient.acked_len@.len() == self.topology.nodes@.len()
        &&& self.persistent.commit_len <= self.persistent.log@.len()
        &&& self.transient.consumed <= self.persistent.commit_len
        &&& self.timer.wf()
        &&& (self.transient.role == Role::Leader ==> forall|i: int|
            0 <= i < self.transient.sent_len@.len() ==> #[trigger] self.transient.sent_len@[i]
                <= self.persistent.log@.len())
    }

    /// The term of the last log entry, 0 for an empty log.
    pub open spec fn last_term(self) -> u32 {
        if self.persistent.log@.len() == 0 {
            0u32
        } else {
            self.persistent.log@.last().term
        }
    }

    /// A fresh follower for node `id` in the given membership.
    pub fn new(id: String, nodes: Vec<String>) -> (r: Self)
        requires
            distinct_ids(nodes@),
            exists|i: int| 0 <= i < nodes@.len() && nodes@[i]@ == id@,
        ensures
            r.wf(),
            r.topology.id == id,
            r.topology.nodes == nodes,
            r.persistent.term == 0,
            r.persistent.voted_for is None,
            r.persistent.commit_len == 0,
            r.persistent.log@ == Seq::<Log<C>>::empty(),
            r.transient.role == Role::Follower,
            r.transient.leader is None,
            r.transient.consumed == 0,
    {
        let n = nodes.len();
        let mut me: usize = 0;
        let mut k: usize = 0;
        while k < n
            invariant
                k <= n,
                n == nodes@.len(),
                exists|i: int| 0 <= i < nodes@.len() && nodes@[i]@ == id@,
                (forall|i: int| 0 <= i < k ==> nodes@[i]@ != id@) || (me < k && nodes@[me as int]@
                    == id@),
                me < n || me == 0,
            decreases n - k,
        {
            if nodes[k] == id {
                me = k;
            }
            k = k + 1;
        }
        assert(me < n && nodes@[me as int]@ == id@);
        Raft {
            topology: Topology { id, nodes },
            persistent: PersistentState::default(),
            transient: TransientState {
                role: Role::Follower,
                leader: None,
                votes_received: vec![false; n],
                sent_len: vec![0; n],
                acked_len: vec![0; n],
                consumed: 0,
            },
            timer: Timer::new(1000, 1000),
            me,
        }
    }

    /// This node's id.
    pub fn id(&self) -> (r: &String)
        ensures
            r == self.topology.id,
    {
        &self.topology.id
    }

    /// The full membership, including this node.
    pub fn nodes(&self) -> (r: &Vec<String>)
        ensures
            r == self.topology.nodes,
    {
        &self.topology.nodes
    }

    /// Every other node's id, in membership order.
    pub fn others(&self) -> (r: Vec<String>)
        requires
            self.wf(),
        ensures
            r@ == self.topology.nodes@.remove(self.me as int),
    {
        let n = self.topology.nodes.len();
        let mut r: Vec<String> = Vec::new();
        let mut i: usize = 0;
        while i < n
            invariant
                i <= n,
                n == self.topology.nodes@.len(),
                self.me < n,
                i <= self.me ==> r@ == self.topology.nodes@.subrange(0, i as int),
                i > self.me ==> r@ == self.topology.nodes@.subrange(0, i as int).remove(self.me as int),
            decreases n - i,
        {
            proof {
                assert(self.topology.nodes@.subrange(0, i as int + 1).drop_last()
                    =~= self.topology.nodes@.subrange(0, i as int));
                if i > self.me {
                    assert(self.topology.nodes@.subrange(0, i as int + 1).remove(self.me as int)
                        =~= self.topology.nodes@.subrange(0, i as int).remove(self.me as int).push(
                        self.topology.nodes@[i as int],
                    ));
                } else if i < self.me {
                    assert(self.topology.nodes@.subrange(0, i as int + 1) =~= self.topology.nodes@
                        .subrange(0, i as int).push(self.topology.nodes@[i as int]));
                }
            }
            if i != self.me {
                r.push(self.topology.nodes[i].clone());
            }
            i = i + 1;
        }
        proof {
            assert(self.topology.nodes@.subrange(0, n as int) =~= self.topology.nodes@);
        }
        r
    }

    /// The replicated log.
    pub fn log(&self) -> (r: &Vec<Log<C>>)
        ensures
            r == self.persistent.log,
    {
        &self.persistent.log
    }

    /// Whether this node currently leads.
    pub fn is_leader(&self) -> (r: bool)
        ensures
            r == (self.transient.role == Role::Leader),
    {
        self.transient.role == Role::Leader
    }

    /// Whether a candidate's log, as stated in its vote request, is at least
    /// as up to date as this node's.
    pub open spec fn log_ok_for_vote(self, req: VoteRequest) -> bool {
        ||| req.last_log_term > self.last_term()
        ||| (req.last_log_term == self.last_term() && req.last_log_index
            >= self.persistent.log@.len())
    }

    /// The current term after absorbing a message sent in `term`.
    pub open spec fn absorbed_term(self, term: u32) -> u32 {
        if term > self.persistent.term {
            term
        } else {
            self.persistent.term
        }
    }

    /// The vote on record after absorbing a message sent in `term`: a higher
    /// term clears it.
    pub open spec fn absorbed_vote(self, term: u32) -> Option<String> {
        if term > self.persistent.term {
            None
        } else {
            self.persistent.voted_for
        }
    }

    /// Whether this node grants the vote: the request's term is current after
    /// absorption, the candidate's log is at least as up to date, and no vote
    /// for another candidate stands this term.
    pub open spec fn grants_vote(self, term: u32, req: VoteRequest) -> bool {
        &&& term == self.absorbed_term(term)
        &&& self.log_ok_for_vote(req)
        &&& match self.absorbed_vote(term) {
            None => true,
            Some(v) => v@ == req.candidate@,
        }
    }

    /// What an election timeout does: the node turns candidate in the next
    /// term, votes for itself, starts a fresh tally holding only its own
    /// vote, and broadcasts a vote request stating its log's position.
    pub open spec fn timeout_post(pre: Raft<C>, post: Raft<C>, message: Rpc<C>) -> bool {
        &&& post.persistent.term == pre.persistent.term + 1
        &&& post.persistent.voted_for == Some(pre.topology.id)
        &&& post.persistent.log@ == pre.persistent.log@
        &&& post.persistent.commit_len == pre.persistent.commit_len
        &&& post.transient.consumed == pre.transient.consumed
        &&& post.transient.role == Role::Candidate
        &&& post.transient.leader == pre.transient.leader
        &&& post.transient.votes_received@.len() == pre.topology.nodes@.len()
        &&& (forall|i: int|
            0 <= i < post.transient.votes_received@.len()
                ==> #[trigger] post.transient.votes_received@[i] == (i == pre.me as int))
        &&& post.transient.sent_len == pre.transient.sent_len
        &&& post.transient.acked_len == pre.transient.acked_len
        &&& post.topology == pre.topology
        &&& post.me == pre.me
        &&& post.timer.base == pre.timer.base
        &&& post.timer.jitter == pre.timer.jitter
        &&& message == (Rpc {
            term: post.persistent.term,
            payload: RpcType::<C>::VoteRequest(
                VoteRequest {
                    candidate: pre.topology.id,
                    last_log_index: pre.persistent.log@.len() as usize,
                    last_log_term: pre.last_term(),
                },
            ),
        })
    }

    /// Starts an election: see `timeout_post`.
    pub fn on_timeout(&mut self) -> (message: Rpc<C>)
        requires
            old(self).wf(),
            old(self).persistent.term < u32::MAX,
        ensures
            final(self).wf(),
            Self::timeout_post(*old(self), *final(self), message),
    {
        self.persistent.term = self.persistent.term + 1;
        self.persistent.voted_for = Some(self.topology.id.clone());
        self.persistent.persist();

        self.transient.role = Role::Candidate;
        let n = self.topology.nodes.len();
        self.transient.votes_received = vec![false; n];
        self.transient.votes_received.set(self.me, true);

        let last_log_index = self.persistent.log.len();
        let last_log_term = match self.persistent.last_log_term() {
            Some(t) => t,
            None => 0,
        };

        let message = Rpc {
            term: self.persistent.term,
            payload: RpcType::VoteRequest(
                VoteRequest { candidate: self.topology.id.clone(), last_log_index, last_log_term },
            ),
        };

        self.timer.reset();
        message
    }

    /// What a vote request does: a higher term is absorbed (clearing the vote
    /// and stepping down), the vote is granted iff `grants_vote` says so and
    /// is then recorded, and the reply echoes the request's term.
    pub open spec fn vote_request_post(
        pre: Raft<C>,
        post: Raft<C>,
        term: u32,
        req: VoteRequest,
        reply: Rpc<C>,
    ) -> bool {
        let granted = pre.grants_vote(term, req);
        &&& post.persistent.term == pre.absorbed_term(term)
        &&& post.persistent.voted_for == (if granted {
            Some(req.candidate)
        } else {
            pre.absorbed_vote(term)
        })
        &&& post.transient.role == (if term > pre.persistent.term {
            Role::Follower
        } else {
            pre.transient.role
        })
        &&& post.persistent.log@ == pre.persistent.log@
        &&& post.persistent.commit_len == pre.persistent.commit_len
        &&& post.transient.consumed == pre.transient.consumed
        &&& post.transient.leader == pre.transient.leader
        &&& post.transient.votes_received == pre.transient.votes_received
        &&& post.transient.sent_len == pre.transient.sent_len
        &&& post.transient.acked_len == pre.transient.acked_len
        &&& post.topology == pre.topology
        &&& post.me == pre.me
        &&& post.timer == pre.timer
        &&& reply == (Rpc {
            term,
            payload: RpcType::<C>::VoteResponse(VoteResponse { voter: pre.topology.id, granted }),
        })
    }

    /// Answers a vote request: see `vote_request_post`.
    pub fn on_vote_request(&mut self, term: u32, request: VoteRequest) -> (reply: Rpc<C>)
        requires
            old(self).wf(),
        ensures
            final(self).wf(),
            Self::vote_request_post(*old(self), *final(self), term, request, reply),
    {
        if term > self.persistent.term {
            self.persistent.term = term;
            self.persistent.voted_for = None;
            self.transient.role = Role::Follower;
        }

        let last_index = self.persistent.log.len();
        let last_term = match self.persistent.last_log_term() {
            Some(t) => t,
            None => 0,
        };

        let term_ok = term == self.persistent.term;
        let log_ok = request.last_log_term > last_term || (request.last_log_term == last_term
            && request.last_log_index >= last_index);
        let vote_ok = match &self.persistent.voted_for {
            None => true,
            Some(v) => *v == request.candidate,
        };

        let granted = if term_ok && log_ok && vote_ok {
            self.persistent.voted_for = Some(request.candidate);
            true
        } else {
            false
        };

        self.persistent.persist();

        Rpc {
            term,
            payload: RpcType::VoteResponse(
                VoteResponse { voter: self.topology.id.clone(), granted },
            ),
        }
    }

    /// What stepping down on a higher term does: the term is adopted, the
    /// vote cleared, the role turns follower, and the election timer is
    /// restarted; nothing else moves.
    pub open spec fn step_down_post(pre: Raft<C>, post: Raft<C>, term: u32) -> bool {
        &&& post.persistent.term == term
        &&& post.persistent.voted_for is None
        &&& post.transient.role == Role::Follower
        &&& post.persistent.log@ == pre.persistent.log@
        &&& post.persistent.commit_len == pre.persistent.commit_len
        &&& post.transient.consumed == pre.transient.consumed
        &&& post.transient.leader == pre.transient.leader
        &&& post.transient.votes_received == pre.transient.votes_received
        &&& post.transient.sent_len == pre.transient.sent_len
        &&& post.transient.acked_len == pre.transient.acked_len
        &&& post.topology == pre.topology
        &&& post.me == pre.me
        &&& post.timer.base == pre.timer.base
        &&& post.timer.jitter == pre.timer.jitter
    }

    /// Whether this vote response completes the candidate's election: it is a
    /// grant in the current term from a member, and with it the tally reaches
    /// a strict majority of the cluster.
    pub open spec fn election_won(pre: Raft<C>, term: u32, resp: VoteResponse) -> bool {
        &&& Self::counts_vote(pre, term, resp)
        &&& count_true(
            pre.transient.votes_received@.update(
                node_index(pre.topology.nodes@, resp.voter@),
                true,
            ),
        ) >= majority(pre.topology.nodes@.len() as int)
    }

    /// Whether a vote response is tallied: a grant, in the current term, at a
    /// candidate, from a member of the cluster.
    pub open spec fn counts_vote(pre: Raft<C>, term: u32, resp: VoteResponse) -> bool {
        &&& resp.granted
        &&& term == pre.persistent.term
        &&& pre.transient.role == Role::Candidate
        &&& has_node(pre.topology.nodes@, resp.voter@)
    }

    /// What a vote response does: a higher term steps the node down; a
    /// tallied grant is recorded, and on reaching a strict majority the
    /// candidate turns leader, records itself as leader, resets every peer's
    /// send mark to its log length and every ack to 0 but its own, which it
    /// holds at its log length; anything else changes nothing.
    pub open spec fn vote_response_post(
        pre: Raft<C>,
        post: Raft<C>,
        term: u32,
        resp: VoteResponse,
    ) -> bool {
        if term > pre.persistent.term {
            Self::step_down_post(pre, post, term)
        } else if Self::counts_vote(pre, term, resp) {
            let vi = node_index(pre.topology.nodes@, resp.voter@);
            let n = pre.topology.nodes@.len() as int;
            &&& post.transient.votes_received@ == pre.transient.votes_received@.update(vi, true)
            &&& post.persistent.term == pre.persistent.term
            &&& post.persistent.voted_for == pre.persistent.voted_for
            &&& post.persistent.log@ == pre.persistent.log@
            &&& post.persistent.commit_len == pre.persistent.commit_len
            &&& post.transient.consumed == pre.transient.consumed
            &&& post.topology == pre.topology
            &&& post.me == pre.me
            &&& post.timer.base == pre.timer.base
            &&& post.timer.jitter == pre.timer.jitter
            &&& if Self::election_won(pre, term, resp) {
                &&& post.transient.role == Role::Leader
                &&& post.transient.leader == Some(pre.topology.id)
                &&& post.transient.sent_len@.len() == n
                &&& post.transient.acked_len@.len() == n
                &&& (forall|i: int|
                    0 <= i < n ==> #[trigger] post.transient.sent_len@[i]
                        == pre.persistent.log@.len())
                &&& (forall|i: int|
                    0 <= i < n ==> #[trigger] post.transient.acked_len@[i] == (if i
                        == pre.me as int {
                        pre.persistent.log@.len() as usize
                    } else {
                        0usize
                    }))
            } else {
                &&& post.transient.role == pre.transient.role
                &&& post.transient.leader == pre.transient.leader
                &&& post.transient.sent_len == pre.transient.sent_len
                &&& post.transient.acked_len == pre.transient.acked_len
                &&& post.timer == pre.timer
            }
        } else {
            post == pre
        }
    }

    /// Absorbs a vote response: see `vote_response_post`.
    pub fn on_vote_response(&mut self, term: u32, response: VoteResponse)
        requires
            old(self).wf(),
        ensures
            final(self).wf(),
            Self::vote_response_post(*old(self), *final(self), term, response),
    {
        if term > self.persistent.term {
            self.persistent.term = term;
            self.persistent.voted_for = None;
            self.persistent.persist();

            self.transient.role = Role::Follower;
            self.timer.reset();

            return;
        }

        if response.granted && term == self.persistent.term && self.transient.role
            == Role::Candidate {
            let found = self.find_node(&response.voter);
            match found {
                None => {
                    proof {
                        assert(!has_node(self.topology.nodes@, response.voter@));
                    }
                },
                Some(vi) => {
                    proof {
                        assert(has_node(self.topology.nodes@, response.voter@));
                        let w = node_index(self.topology.nodes@, response.voter@);
                        assert(self.topology.nodes@[w]@ == response.voter@);
                        assert(w == vi as int);
                    }
                    self.transient.votes_received.set(vi, true);

                    let votes = self.count_votes();
                    let n = self.topology.nodes.len();
                    if votes >= n / 2 + 1 {
                        self.transient.role = Role::Leader;
                        self.transient.leader = Some(self.topology.id.clone());

                        self.timer.reset();

                        let len = self.persistent.log.len();
                        let me = self.me;
                        let mut sent: Vec<usize> = Vec::new();
                        let mut acked: Vec<usize> = Vec::new();
                        let mut i: usize = 0;
                        while i < n
                            invariant
                                i <= n,
                                sent@.len() == i,
                                acked@.len() == i,
                                forall|j: int| 0 <= j < i ==> #[trigger] sent@[j] == len,
                                forall|j: int|
                                    0 <= j < i ==> #[trigger] acked@[j] == (if j == me as int {
                                        len
                                    } else {
                                        0usize
                                    }),
                            decreases n - i,
                        {
                            sent.push(len);
                            if i == me {
                                acked.push(len);
                            } else {
                                acked.push(0);
                            }
                            i = i + 1;
                        }
                        self.transient.sent_len = sent;
                        self.transient.acked_len = acked;
                    }
                },
            }
        }
    }

    /// How many votes the current tally holds.
    fn count_votes(&self) -> (c: usize)
        requires
            self.wf(),
        ensures
            c == count_true(self.transient.votes_received@),
    {
        let n = self.transient.votes_received.len();
        let mut c: usize = 0;
        let mut i: usize = 0;
        while i < n
            invariant
                i <= n,
                c <= i,
                n == self.transient.votes_received@.len(),
                c == count_true(self.transient.votes_received@.subrange(0, i as int)),
            decreases n - i,
        {
            proof {
                assert(self.transient.votes_received@.subrange(0, i as int + 1).drop_last()
                    =~= self.transient.votes_received@.subrange(0, i as int));
            }
            if self.transient.votes_received[i] {
                c = c + 1;
            }
            i = i + 1;
        }
        proof {
            assert(self.transient.votes_received@.subrange(0, n as int)
                =~= self.transient.votes_received@);
        }
        c
    }

    /// The position of node `id` in the membership, if it is a member.
    fn find_node(&self, id: &String) -> (r: Option<usize>)
        requires
            self.wf(),
        ensures
            match r {
                Some(i) => i < self.topology.nodes@.len() && self.topology.nodes@[i as int]@
                    == id@,
                None => forall|i: int|
                    0 <= i < self.topology.nodes@.len() ==> self.topology.nodes@[i]@ != id@,
            },
    {
        let n = self.topology.nodes.len();
        let mut i: usize = 0;
        while i < n
            invariant
                i <= n,
                n == self.topology.nodes@.len(),
                forall|j: int| 0 <= j < i ==> self.topology.nodes@[j]@ != id@,
            decreases n - i,
        {
            if self.topology.nodes[i] == *id {
                return Some(i);
            }
            i = i + 1;
        }
        None
    }

    /// Sanity of a replication window against this node's state: the window
    /// fits the address space, the commit mark lies within what the window
    /// covers, and no divergence reaches into this node's committed prefix
    /// (a divergence there is state corruption, which the design treats as
    /// fatal; callers must rule it out).
    pub open spec fn append_request_ok(self, req: AppendRequest<C>) -> bool {
        &&& req.prefix_len + req.suffix@.len() <= usize::MAX
        &&& req.commit_len <= req.prefix_len + req.suffix@.len()
        &&& (forall|j: int|
            0 <= j < req.suffix@.len() && req.prefix_len + j < self.persistent.log@.len()
                && (#[trigger] self.persistent.log@[req.prefix_len + j]).term
                != req.suffix@[j].term ==> req.prefix_len + j >= self.persistent.commit_len)
    }

    /// What absorbing a window does to the durable state: the log becomes the
    /// merge of the old log and the window, and the commit mark is lifted to
    /// the leader's, never lowered.
    pub open spec fn append_commands_post(
        pre: Raft<C>,
        post: Raft<C>,
        prefix: usize,
        commit: usize,
        suffix: Seq<Log<C>>,
    ) -> bool {
        &&& post.persistent.log@ == merged(pre.persistent.log@, prefix as int, suffix)
        &&& post.persistent.commit_len == (if commit > pre.persistent.commit_len {
            commit
        } else {
            pre.persistent.commit_len
        })
        &&& post.persistent.term == pre.persistent.term
        &&& post.persistent.voted_for == pre.persistent.voted_for
        &&& post.transient == pre.transient
        &&& post.topology == pre.topology
        &&& post.me == pre.me
        &&& post.timer == pre.timer
    }
}

impl<C: Command> Raft<C> {
    /// Adopts a replication window: truncates the divergent tail, if any,
    /// appends what follows, and lifts the commit mark.
    pub fn append_commands(&mut self, prefix: usize, commit: usize, suffix: Vec<Log<C>>)
        requires
            old(self).wf(),
            old(self).transient.role != Role::Leader,
            prefix <= old(self).persistent.log@.len(),
            prefix + suffix@.len() <= usize::MAX,
            commit <= prefix + suffix@.len(),
            forall|j: int|
                0 <= j < suffix@.len() && prefix + j < old(self).persistent.log@.len() && (
                #[trigger] old(self).persistent.log@[prefix + j]).term != suffix@[j].term ==> prefix
                    + j >= old(self).persistent.commit_len,
        ensures
            final(self).wf(),
            final(self).transient.role == old(self).transient.role,
            Self::append_commands_post(*old(self), *final(self), prefix, commit, suffix@),
    {
        let ghost pre_log = self.persistent.log@;
        let mut i: usize = 0;
        while i < suffix.len() && prefix + i < self.persistent.log.len()
            && self.persistent.log[prefix + i].term == suffix[i].term
            invariant
                0 <= i <= suffix@.len(),
                prefix + i <= self.persistent.log@.len(),
                prefix + suffix@.len() <= usize::MAX,
                merge_from(self.persistent.log@, prefix as int, suffix@, 0) == merge_from(
                    self.persistent.log@,
                    prefix as int,
                    suffix@,
                    i as int,
                ),
            decreases suffix@.len() - i,
        {
            i = i + 1;
        }
        if i < suffix.len() {
            proof {
                if prefix + i < self.persistent.log@.len() {
                    assert(self.persistent.log@[prefix as int + i as int].term
                        != suffix@[i as int].term);
                    assert(prefix + i >= self.persistent.commit_len);
                }
            }
            if prefix + i < self.persistent.log.len() {
                self.persistent.log.truncate(prefix + i);
            }
            proof {
                assert(self.persistent.log@ =~= pre_log.subrange(0, prefix as int + i as int));
            }
            let mut j: usize = i;
            while j < suffix.len()
                invariant
                    i <= j <= suffix@.len(),
                    prefix + suffix@.len() <= usize::MAX,
                    self.persistent.log@ == pre_log.subrange(0, prefix as int + i as int)
                        + suffix@.subrange(i as int, j as int),
                    self.persistent.term == old(self).persistent.term,
                    self.persistent.voted_for == old(self).persistent.voted_for,
                    self.persistent.commit_len == old(self).persistent.commit_len,
                    self.transient == old(self).transient,
                    self.topology == old(self).topology,
                    self.me == old(self).me,
                    self.timer == old(self).timer,
                decreases suffix@.len() - j,
            {
                proof {
                    assert(suffix@.subrange(i as int, j as int).push(suffix@[j as int])
                        =~= suffix@.subrange(i as int, j as int + 1));
                }
                let entry = suffix[j].duplicate();
                self.persistent.log.push(entry);
                j = j + 1;
            }
            proof {
                assert(suffix@.subrange(i as int, suffix@.len() as int) =~= suffix@.skip(i as int));
                assert(self.persistent.log@ =~= pre_log.subrange(0, prefix as int + i as int)
                    + suffix@.skip(i as int));
                if prefix + i < pre_log.len() {
                    assert(merge_from(pre_log, prefix as int, suffix@, i as int) == pre_log
                        .subrange(0, prefix as int + i as int) + suffix@.skip(i as int));
                } else {
                    assert(pre_log.subrange(0, prefix as int + i as int) =~= pre_log);
                    assert(merge_from(pre_log, prefix as int, suffix@, i as int) == pre_log
                        + suffix@.skip(i as int));
                }
            }
        }
        if commit > self.persistent.commit_len {
            self.persistent.commit_len = commit;
        }
        self.persistent.persist();
    }

    /// Whether this node accepts the window: the term is current after
    /// absorption and the stated prefix is present with a matching last term.
    pub open spec fn accepts_append(self, term: u32, req: AppendRequest<C>) -> bool {
        &&& term == self.absorbed_term(term)
        &&& self.persistent.log@.len() >= req.prefix_len
        &&& (req.prefix_len == 0 || self.persistent.log@[req.prefix_len - 1].term
            == req.prefix_term)
    }

    /// What a replication window does: a higher term is absorbed, a current
    /// term makes the node a follower of the stated leader and restarts its
    /// election timer; an accepted window is adopted as `append_commands_post`
    /// says and acknowledged with the new match length, a rejected one is
    /// answered without one. The reply echoes the request's term.
    pub open spec fn append_request_post(
        pre: Raft<C>,
        post: Raft<C>,
        term: u32,
        req: AppendRequest<C>,
        reply: Rpc<C>,
    ) -> bool {
        let accepted = pre.accepts_append(term, req);
        &&& post.persistent.term == pre.absorbed_term(term)
        &&& post.persistent.voted_for == pre.absorbed_vote(term)
        &&& post.transient.role == (if pre.absorbed_term(term) == term {
            Role::Follower
        } else {
            pre.transient.role
        })
        &&& post.transient.leader == (if pre.absorbed_term(term) == term {
            Some(req.leader)
        } else {
            pre.transient.leader
        })
        &&& (if accepted {
            &&& post.persistent.log@ == merged(
                pre.persistent.log@,
                req.prefix_len as int,
                req.suffix@,
            )
            &&& post.persistent.commit_len == (if req.commit_len > pre.persistent.commit_len {
                req.commit_len
            } else {
                pre.persistent.commit_len
            })
        } else {
            &&& post.persistent.log@ == pre.persistent.log@
            &&& post.persistent.commit_len == pre.persistent.commit_len
        })
        &&& post.transient.votes_received == pre.transient.votes_received
        &&& post.transient.sent_len == pre.transient.sent_len
        &&& post.transient.acked_len == pre.transient.acked_len
        &&& post.transient.consumed == pre.transient.consumed
        &&& post.topology == pre.topology
        &&& post.me == pre.me
        &&& post.timer.base == pre.timer.base
        &&& post.timer.jitter == pre.timer.jitter
        &&& reply == (Rpc {
            term,
            payload: RpcType::<C>::AppendResponse(
                AppendResponse {
                    follower: pre.topology.id,
                    ack: if accepted {
                        Some((req.prefix_len + req.suffix@.len()) as usize)
                    } else {
                        None
                    },
                },
            ),
        })
    }

    /// Absorbs a replication window: see `append_request_post`.
    pub fn on_append_request(&mut self, term: u32, request: AppendRequest<C>) -> (reply: Rpc<C>)
        requires
            old(self).wf(),
            old(self).append_request_ok(request),
        ensures
            final(self).wf(),
            Self::append_request_post(*old(self), *final(self), term, request, reply),
    {
        if term > self.persistent.term {
            self.persistent.term = term;
            self.persistent.voted_for = None;
        }

        self.timer.reset();

        if self.persistent.term == term {
            self.transient.role = Role::Follower;
            self.transient.leader = Some(request.leader);
        }

        let term_ok = term == self.persistent.term;
        let log_ok = (self.persistent.log.len() >= request.prefix_len) && (request.prefix_len == 0
            || self.persistent.log[request.prefix_len - 1].term == request.prefix_term);

        let ack = if term_ok && log_ok {
            let suffix_len = request.suffix.len();
            self.append_commands(request.prefix_len, request.commit_len, request.suffix);
            Some(request.prefix_len + suffix_len)
        } else {
            None
        };

        self.persistent.persist();

        Rpc {
            term,
            payload: RpcType::AppendResponse(
                AppendResponse { follower: self.topology.id.clone(), ack },
            ),
        }
    }

    /// How many nodes have acknowledged a prefix longer than `k` entries.
    fn count_acks_above(&self, k: usize) -> (c: usize)
        requires
            self.wf(),
            k < usize::MAX,
        ensures
            c == count_ge(self.transient.acked_len@, k + 1),
    {
        let n = self.transient.acked_len.len();
        let mut c: usize = 0;
        let mut i: usize = 0;
        while i < n
            invariant
                i <= n,
                c <= i,
                k < usize::MAX,
                n == self.transient.acked_len@.len(),
                c == count_ge(self.transient.acked_len@.subrange(0, i as int), k + 1),
            decreases n - i,
        {
            proof {
                assert(self.transient.acked_len@.subrange(0, i as int + 1).drop_last()
                    =~= self.transient.acked_len@.subrange(0, i as int));
            }
            if self.transient.acked_len[i] > k {
                c = c + 1;
            }
            i = i + 1;
        }
        proof {
            assert(self.transient.acked_len@.subrange(0, n as int) =~= self.transient.acked_len@);
        }
        c
    }

    /// What commit advancement does: the commit mark becomes the longest
    /// prefix such that every entry up to it is acknowledged by a strict
    /// majority of the cluster; nothing else moves.
    pub open spec fn commit_post(pre: Raft<C>, post: Raft<C>) -> bool {
        let n = pre.topology.nodes@.len() as int;
        &&& pre.persistent.commit_len <= post.persistent.commit_len <= pre.persistent.log@.len()
        &&& (forall|k: int|
            pre.persistent.commit_len < k <= post.persistent.commit_len ==> count_ge(
                pre.transient.acked_len@,
                k,
            ) >= majority(n))
        &&& (post.persistent.commit_len < pre.persistent.log@.len() ==> count_ge(
            pre.transient.acked_len@,
            post.persistent.commit_len + 1,
        ) < majority(n))
        &&& post.persistent.term == pre.persistent.term
        &&& post.persistent.voted_for == pre.persistent.voted_for
        &&& post.persistent.log@ == pre.persistent.log@
        &&& post.transient == pre.transient
        &&& post.topology == pre.topology
        &&& post.me == pre.me
        &&& post.timer == pre.timer
    }

    /// Advances the commit mark while a strict majority acknowledges the next
    /// entry: see `commit_post`.
    pub fn commit_commands(&mut self)
        requires
            old(self).wf(),
        ensures
            final(self).wf(),
            Self::commit_post(*old(self), *final(self)),
    {
        let n = self.topology.nodes.len();
        let len = self.persistent.log.len();
        let mut commit = self.persistent.commit_len;
        let mut advancing = true;
        while advancing && commit < len
            invariant
                self.wf(),
                n == self.topology.nodes@.len(),
                len == self.persistent.log@.len(),
                self.persistent.commit_len <= commit <= len,
                forall|k: int|
                    self.persistent.commit_len < k <= commit ==> count_ge(
                        self.transient.acked_len@,
                        k,
                    ) >= majority(n as int),
                !advancing ==> commit < len && count_ge(self.transient.acked_len@, commit + 1)
                    < majority(n as int),
            decreases len - commit, (if advancing {
                1int
            } else {
                0int
            }),
        {
            let acks = self.count_acks_above(commit);
            if acks >= n / 2 + 1 {
                commit = commit + 1;
            } else {
                advancing = false;
            }
        }
        self.persistent.commit_len = commit;
        self.persistent.persist();
    }

    /// What a window acknowledgement does: a higher term steps the node down;
    /// in the current term a leader takes a fresh match length from a member
    /// as that peer's new send and ack marks and advances the commit mark as
    /// `commit_post` says, and steps the peer's send mark back one on a
    /// rejection, to retry from earlier on the next tick; anything else
    /// changes nothing.
    pub open spec fn append_response_post(
        pre: Raft<C>,
        post: Raft<C>,
        term: u32,
        resp: AppendResponse,
    ) -> bool {
        if term > pre.persistent.term {
            Self::step_down_post(pre, post, term)
        } else if term == pre.persistent.term && pre.transient.role == Role::Leader && has_node(
            pre.topology.nodes@,
            resp.follower@,
        ) {
            let fi = node_index(pre.topology.nodes@, resp.follower@);
            match resp.ack {
                Some(a) => if a >= pre.transient.acked_len@[fi] {
                    let n = pre.topology.nodes@.len() as int;
                    &&& post.transient.sent_len@ == pre.transient.sent_len@.update(fi, a)
                    &&& post.transient.acked_len@ == pre.transient.acked_len@.update(fi, a)
                    &&& post.persistent.term == pre.persistent.term
                    &&& post.persistent.voted_for == pre.persistent.voted_for
                    &&& post.persistent.log@ == pre.persistent.log@
                    &&& post.transient.role == pre.transient.role
                    &&& post.transient.leader == pre.transient.leader
                    &&& post.transient.votes_received == pre.transient.votes_received
                    &&& post.transient.consumed == pre.transient.consumed
                    &&& post.topology == pre.topology
                    &&& post.me == pre.me
                    &&& post.timer == pre.timer
                    &&& pre.persistent.commit_len <= post.persistent.commit_len
                        <= pre.persistent.log@.len()
                    &&& (forall|k: int|
                        pre.persistent.commit_len < k <= post.persistent.commit_len ==> count_ge(
                            post.transient.acked_len@,
                            k,
                        ) >= majority(n))
                    &&& (post.persistent.commit_len < pre.persistent.log@.len() ==> count_ge(
                        post.transient.acked_len@,
                        post.persistent.commit_len + 1,
                    ) < majority(n))
                } else {
                    post == pre
                },
                None => {
                    &&& post.transient.sent_len@ == pre.transient.sent_len@.update(
                        fi,
                        if pre.transient.sent_len@[fi] > 0 {
                            (pre.transient.sent_len@[fi] - 1) as usize
                        } else {
                            0usize
                        },
                    )
                    &&& post.persistent == pre.persistent
                    &&& post.transient.role == pre.transient.role
                    &&& post.transient.leader == pre.transient.leader
                    &&& post.transient.votes_received == pre.transient.votes_received
                    &&& post.transient.acked_len == pre.transient.acked_len
                    &&& post.transient.consumed == pre.transient.consumed
                    &&& post.topology == pre.topology
                    &&& post.me == pre.me
                    &&& post.timer == pre.timer
                },
            }
        } else {
            post == pre
        }
    }

    /// What the leader's replication round holds: one window per other node,
    /// in membership order, each picking up at that peer's send mark, stating
    /// the term of the entry just before it, the leader's commit mark, and
    /// carrying every entry from the mark on.
    pub open spec fn replicate_msgs_ok(pre: Raft<C>, msgs: Seq<(String, Rpc<C>)>) -> bool {
        let n = pre.topology.nodes@.len() as int;
        &&& msgs.len() == n - 1
        &&& (forall|j: int|
            0 <= j < msgs.len() ==> {
                let i = if j < pre.me as int {
                    j
                } else {
                    j + 1
                };
                let p = pre.transient.sent_len@[i] as int;
                &&& (#[trigger] msgs[j]).0 == pre.topology.nodes@[i]
                &&& msgs[j].1.term == pre.persistent.term
                &&& match msgs[j].1.payload {
                    RpcType::AppendRequest(req) => {
                        &&& req.leader == pre.topology.id
                        &&& req.prefix_len == pre.transient.sent_len@[i]
                        &&& req.prefix_term == (if p > 0 {
                            pre.persistent.log@[p - 1].term
                        } else {
                            0u32
                        })
                        &&& req.commit_len == pre.persistent.commit_len
                        &&& req.suffix@ == pre.persistent.log@.skip(p)
                    },
                    _ => false,
                }
            })
    }

    /// One replication round: a window for every other node, as
    /// `replicate_msgs_ok` says.
    pub fn on_replicate(&self) -> (d: Delivery<C>)
        requires
            self.wf(),
            self.transient.role == Role::Leader,
        ensures
            match d {
                Delivery::Multicast(msgs) => Self::replicate_msgs_ok(*self, msgs@),
                _ => false,
            },
    {
        let n = self.topology.nodes.len();
        let mut messages: Vec<(String, Rpc<C>)> = Vec::new();
        let mut i: usize = 0;
        while i < n
            invariant
                i <= n,
                self.wf(),
                self.transient.role == Role::Leader,
                n == self.topology.nodes@.len(),
                messages@.len() == (if i <= self.me {
                    i as int
                } else {
                    i - 1
                }),
                forall|j: int|
                    0 <= j < messages@.len() ==> {
                        let k = if j < self.me as int {
                            j
                        } else {
                            j + 1
                        };
                        let p = self.transient.sent_len@[k] as int;
                        &&& (#[trigger] messages@[j]).0 == self.topology.nodes@[k]
                        &&& messages@[j].1.term == self.persistent.term
                        &&& match messages@[j].1.payload {
                            RpcType::AppendRequest(req) => {
                                &&& req.leader == self.topology.id
                                &&& req.prefix_len == self.transient.sent_len@[k]
                                &&& req.prefix_term == (if p > 0 {
                                    self.persistent.log@[p - 1].term
                                } else {
                                    0u32
                                })
                                &&& req.commit_len == self.persistent.commit_len
                                &&& req.suffix@ == self.persistent.log@.skip(p)
                            },
                            _ => false,
                        }
                    },
            decreases n - i,
        {
            if i != self.me {
                let prefix_len = self.transient.sent_len[i];
                let len = self.persistent.log.len();

                let mut suffix: Vec<Log<C>> = Vec::new();
                let mut j: usize = prefix_len;
                while j < len
                    invariant
                        prefix_len <= j <= len,
                        len == self.persistent.log@.len(),
                        suffix@ == self.persistent.log@.subrange(prefix_len as int, j as int),
                    decreases len - j,
                {
                    proof {
                        assert(self.persistent.log@.subrange(prefix_len as int, j as int).push(
                            self.persistent.log@[j as int],
                        ) =~= self.persistent.log@.subrange(prefix_len as int, j as int + 1));
                    }
                    let entry = self.persistent.log[j].duplicate();
                    suffix.push(entry);
                    j = j + 1;
                }
                proof {
                    assert(self.persistent.log@.subrange(prefix_len as int, len as int)
                        =~= self.persistent.log@.skip(prefix_len as int));
                }

                let prefix_term = if prefix_len > 0 {
                    self.persistent.log[prefix_len - 1].term
                } else {
                    0
                };

                messages.push(
                    (
                        self.topology.nodes[i].clone(),
                        Rpc {
                            term: self.persistent.term,
                            payload: RpcType::AppendRequest(
                                AppendRequest {
                                    leader: self.topology.id.clone(),
                                    prefix_len,
                                    prefix_term,
                                    commit_len: self.persistent.commit_len,
                                    suffix,
                                },
                            ),
                        },
                    ),
                );
            }
            i = i + 1;
        }
        Delivery::Multicast(messages)
    }

    /// What submitting a command does: a leader appends it to its log under
    /// the current term, counts itself as having acknowledged the longer log,
    /// and opens a replication round; another node forwards the command to
    /// the last known leader, or drops it when none is known (or this node
    /// wrongly believes itself the leader on record).
    pub open spec fn apply_post(pre: Raft<C>, post: Raft<C>, command: C, d: Option<Delivery<C>>) -> bool {
        if pre.transient.role == Role::Leader {
            &&& post.persistent.log@ == pre.persistent.log@.push(
                Log { term: pre.persistent.term, command },
            )
            &&& post.transient.acked_len@ == pre.transient.acked_len@.update(
                pre.me as int,
                (pre.persistent.log@.len() + 1) as usize,
            )
            &&& post.persistent.term == pre.persistent.term
            &&& post.persistent.voted_for == pre.persistent.voted_for
            &&& post.persistent.commit_len == pre.persistent.commit_len
            &&& post.transient.role == pre.transient.role
            &&& post.transient.leader == pre.transient.leader
            &&& post.transient.votes_received == pre.transient.votes_received
            &&& post.transient.sent_len == pre.transient.sent_len
            &&& post.transient.consumed == pre.transient.consumed
            &&& post.topology == pre.topology
            &&& post.me == pre.me
            &&& post.timer == pre.timer
            &&& match d {
                Some(Delivery::Multicast(msgs)) => Self::replicate_msgs_ok(post, msgs@),
                _ => false,
            }
        } else {
            &&& post == pre
            &&& match pre.transient.leader {
                None => d is None,
                Some(l) => if l@ == pre.topology.id@ {
                    d is None
                } else {
                    match d {
                        Some(Delivery::Unicast(to, rpc)) => {
                            &&& to == l
                            &&& rpc == (Rpc {
                                term: pre.persistent.term,
                                payload: RpcType::<C>::ForwardRequest(
                                    ForwardRequest { follower: pre.topology.id, command },
                                ),
                            })
                        },
                        _ => false,
                    }
                },
            }
        }
    }

    /// Submits a client command: see `apply_post`.
    pub fn apply(&mut self, command: C) -> (d: Option<Delivery<C>>)
        requires
            old(self).wf(),
            old(self).transient.role == Role::Leader ==> old(self).persistent.log@.len()
                < usize::MAX,
        ensures
            final(self).wf(),
            Self::apply_post(*old(self), *final(self), command, d),
    {
        let term = self.persistent.term;

        if self.is_leader() {
            self.persistent.log.push(Log { term, command });
            self.persistent.persist();

            let len = self.persistent.log.len();
            self.transient.acked_len.set(self.me, len);

            Some(self.on_replicate())
        } else {
            let leader = match &self.transient.leader {
                None => {
                    return None;
                },
                Some(l) => l.clone(),
            };
            if leader == self.topology.id {
                return None;
            }

            Some(
                Delivery::Unicast(
                    leader,
                    Rpc {
                        term: self.persistent.term,
                        payload: RpcType::ForwardRequest(
                            ForwardRequest { follower: self.topology.id.clone(), command },
                        ),
                    },
                ),
            )
        }
    }

    /// Pops the next newly committed command in log order, if consumption
    /// still lags the commit mark.
    pub fn consume(&mut self) -> (r: Option<C>)
        requires
            old(self).wf(),
        ensures
            final(self).wf(),
            old(self).transient.consumed < old(self).persistent.commit_len ==> {
                &&& final(self).transient.consumed == old(self).transient.consumed + 1
                &&& r == Some(
                    old(self).persistent.log@[old(self).transient.consumed as int].command,
                )
                &&& final(self).persistent == old(self).persistent
                &&& final(self).transient.role == old(self).transient.role
                &&& final(self).transient.leader == old(self).transient.leader
                &&& final(self).transient.votes_received == old(self).transient.votes_received
                &&& final(self).transient.sent_len == old(self).transient.sent_len
                &&& final(self).transient.acked_len == old(self).transient.acked_len
                &&& final(self).topology == old(self).topology
                &&& final(self).me == old(self).me
                &&& final(self).timer == old(self).timer
            },
            old(self).transient.consumed >= old(self).persistent.commit_len ==> (r is None
                && *final(self) == *old(self)),
    {
        if self.transient.consumed < self.persistent.commit_len {
            self.transient.consumed = self.transient.consumed + 1;
            Some(self.persistent.log[self.transient.consumed - 1].command.duplicate())
        } else {
            None
        }
    }

    /// What a periodic tick does: a leader opens a replication round; another
    /// node either starts an election, when its timer has expired, or stands
    /// pat. Whether the timer has expired depends on the clock, so both
    /// outcomes are possible.
    pub open spec fn tick_post(pre: Raft<C>, post: Raft<C>, d: Option<Delivery<C>>) -> bool {
        if pre.transient.role == Role::Leader {
            &&& post == pre
            &&& match d {
                Some(Delivery::Multicast(msgs)) => Self::replicate_msgs_ok(pre, msgs@),
                _ => false,
            }
        } else {
            match d {
                None => post == pre,
                Some(Delivery::Broadcast(m)) => Self::timeout_post(pre, post, m),
                _ => false,
            }
        }
    }

    /// Drives the protocol forward on a periodic event: see `tick_post`.
    pub fn tick(&mut self) -> (d: Option<Delivery<C>>)
        requires
            old(self).wf(),
            old(self).persistent.term < u32::MAX,
        ensures
            final(self).wf(),
            Self::tick_post(*old(self), *final(self), d),
    {
        if self.is_leader() {
            return Some(self.on_replicate());
        }

        if self.timer.expired() {
            let message = self.on_timeout();
            return Some(Delivery::Broadcast(message));
        }

        None
    }

    /// Sanity of an inbound consensus message against this node's state: a
    /// window must be sane as `append_request_ok` says, an acknowledged match
    /// length must lie within this node's log, and a forwarded command must
    /// leave room in it. The design treats violations as fatal corruption;
    /// callers rule them out with `check_rpc`.
    pub open spec fn rpc_ok(self, rpc: Rpc<C>) -> bool {
        match rpc.payload {
            RpcType::AppendRequest(req) => self.append_request_ok(req),
            RpcType::AppendResponse(resp) => match resp.ack {
                Some(a) => a <= self.persistent.log@.len(),
                None => true,
            },
            RpcType::ForwardRequest(_) => self.transient.role == Role::Leader
                ==> self.persistent.log@.len() < usize::MAX,
            _ => true,
        }
    }

    /// What consuming one inbound message does: requests are answered to the
    /// sender, responses are absorbed, and a forwarded command is submitted
    /// here, each as the matching transition says.
    pub open spec fn process_post(
        pre: Raft<C>,
        post: Raft<C>,
        from: String,
        rpc: Rpc<C>,
        d: Option<Delivery<C>>,
    ) -> bool {
        match rpc.payload {
            RpcType::VoteRequest(req) => match d {
                Some(Delivery::Unicast(to, reply)) => to == from && Self::vote_request_post(
                    pre,
                    post,
                    rpc.term,
                    req,
                    reply,
                ),
                _ => false,
            },
            RpcType::VoteResponse(resp) => d is None && Self::vote_response_post(
                pre,
                post,
                rpc.term,
                resp,
            ),
            RpcType::AppendRequest(req) => match d {
                Some(Delivery::Unicast(to, reply)) => to == from && Self::append_request_post(
                    pre,
                    post,
                    rpc.term,
                    req,
                    reply,
                ),
                _ => false,
            },
            RpcType::AppendResponse(resp) => d is None && Self::append_response_post(
                pre,
                post,
                rpc.term,
                resp,
            ),
            RpcType::ForwardRequest(fr) => Self::apply_post(pre, post, fr.command, d),
        }
    }

    /// Consumes one inbound consensus message and produces the optional
    /// outbound action: see `process_post`.
    pub fn process(&mut self, from: String, rpc: Rpc<C>) -> (d: Option<Delivery<C>>)
        requires
            old(self).wf(),
            old(self).rpc_ok(rpc),
        ensures
            final(self).wf(),
            Self::process_post(*old(self), *final(self), from, rpc, d),
    {
        match rpc.payload {
            RpcType::VoteRequest(request) => {
                let message = self.on_vote_request(rpc.term, request);
                Some(Delivery::Unicast(from, message))
            },
            RpcType::VoteResponse(response) => {
                self.on_vote_response(rpc.term, response);
                None
            },
            RpcType::AppendRequest(request) => {
                let message = self.on_append_request(rpc.term, request);
                Some(Delivery::Unicast(from, message))
            },
            RpcType::AppendResponse(response) => {
                self.on_append_response(rpc.term, response);
                None
            },
            RpcType::ForwardRequest(request) => self.apply(request.command),
        }
    }

    /// Law (a step towards state-machine safety): no state is ever dropped
    /// below the commit mark. An accepted replication window leaves every
    /// committed entry in place, the log at least as long as the committed
    /// prefix, and the commit mark never lowered; entries below it are safe
    /// to apply once and for all.
    pub proof fn lemma_append_preserves_committed(
        pre: Raft<C>,
        post: Raft<C>,
        term: u32,
        req: AppendRequest<C>,
        reply: Rpc<C>,
    )
        requires
            pre.wf(),
            pre.append_request_ok(req),
            Self::append_request_post(pre, post, term, req, reply),
        ensures
            post.persistent.commit_len >= pre.persistent.commit_len,
            post.persistent.log@.len() >= pre.persistent.commit_len,
            forall|k: int|
                0 <= k < pre.persistent.commit_len ==> #[trigger] post.persistent.log@[k]
                    == pre.persistent.log@[k],
    {
        if pre.accepts_append(term, req) {
            lemma_merge_preserves_prefix(
                pre.persistent.log@,
                req.prefix_len as int,
                req.suffix@,
                0,
                pre.persistent.commit_len as int,
            );
        }
    }

    /// Law (the leader-completeness ingredient): a vote goes only to a
    /// candidate whose log is at least as up to date as the voter's, so a
    /// leader's log position is at least that of every voter in its majority;
    /// that a leader's log then holds every entry committed in earlier terms
    /// is Raft's quorum-overlap argument over these grants, not restated
    /// here.
    pub proof fn lemma_grant_requires_up_to_date(
        pre: Raft<C>,
        post: Raft<C>,
        term: u32,
        req: VoteRequest,
        reply: Rpc<C>,
    )
        requires
            Self::vote_request_post(pre, post, term, req, reply),
            pre.grants_vote(term, req),
        ensures
            req.last_log_term > pre.last_term() || (req.last_log_term == pre.last_term()
                && req.last_log_index >= pre.persistent.log@.len()),
    {
    }

    /// Law: a node grants at most one candidate per term. A grant records the
    /// vote, and a second grant in the same term goes through only when the
    /// recorded vote already names that candidate; so the grants of one term
    /// at one node form the per-voter map that `lemma_election_safety`
    /// assumes.
    pub proof fn lemma_one_vote_per_term(
        pre: Raft<C>,
        mid: Raft<C>,
        post: Raft<C>,
        term: u32,
        req1: VoteRequest,
        req2: VoteRequest,
        reply1: Rpc<C>,
        reply2: Rpc<C>,
    )
        requires
            Self::vote_request_post(pre, mid, term, req1, reply1),
            Self::vote_request_post(mid, post, term, req2, reply2),
            pre.grants_vote(term, req1),
            mid.grants_vote(term, req2),
        ensures
            req1.candidate@ == req2.candidate@,
    {
    }

    /// Law: whatever one inbound message does to a node, its term never
    /// decreases and its committed prefix never shrinks.
    pub proof fn lemma_process_monotone(
        pre: Raft<C>,
        post: Raft<C>,
        from: String,
        rpc: Rpc<C>,
        d: Option<Delivery<C>>,
    )
        requires
            pre.wf(),
            Self::process_post(pre, post, from, rpc, d),
        ensures
            pre.persistent.term <= post.persistent.term,
            pre.persistent.commit_len <= post.persistent.commit_len,
    {
    }

    /// Whether an inbound consensus message is sane against this node's
    /// state; the event loop drops the connection on a violation, as the
    /// design treats it as fatal corruption.
    pub fn check_rpc(&self, rpc: &Rpc<C>) -> (r: bool)
        requires
            self.wf(),
        ensures
            r == self.rpc_ok(*rpc),
    {
        match &rpc.payload {
            RpcType::AppendRequest(req) => {
                if req.prefix_len > usize::MAX - req.suffix.len() {
                    return false;
                }
                if req.commit_len > req.prefix_len + req.suffix.len() {
                    return false;
                }
                let len = self.persistent.log.len();
                let mut j: usize = 0;
                let mut ok = true;
                while j < req.suffix.len()
                    invariant
                        j <= req.suffix@.len(),
                        req.prefix_len + req.suffix@.len() <= usize::MAX,
                        len == self.persistent.log@.len(),
                        ok == (forall|k: int|
                            0 <= k < j && req.prefix_len + k < self.persistent.log@.len() && (
                            #[trigger] self.persistent.log@[req.prefix_len + k]).term
                                != req.suffix@[k].term ==> req.prefix_len + k
                                >= self.persistent.commit_len),
                    decreases req.suffix@.len() - j,
                {
                    if req.prefix_len + j < len
                        && self.persistent.log[req.prefix_len + j].term != req.suffix[j].term
                        && req.prefix_len + j < self.persistent.commit_len {
                        ok = false;
                    }
                    j = j + 1;
                }
                ok
            },
            RpcType::AppendResponse(resp) => match resp.ack {
                Some(a) => a <= self.persistent.log.len(),
                None => true,
            },
            RpcType::ForwardRequest(_) => !(self.transient.role == Role::Leader)
                || self.persistent.log.len() < usize::MAX,
            _ => true,
        }
    }

    /// Absorbs a window acknowledgement: see `append_response_post`.
    pub fn on_append_response(&mut self, term: u32, response: AppendResponse)
        requires
            old(self).wf(),
            response.ack matches Some(a) ==> a <= old(self).persistent.log@.len(),
        ensures
            final(self).wf(),
            Self::append_response_post(*old(self), *final(self), term, response),
    {
        if term > self.persistent.term {
            self.persistent.term = term;
            self.persistent.voted_for = None;
            self.persistent.persist();

            self.transient.role = Role::Follower;
            self.timer.reset();

            return;
        }

        if term == self.persistent.term && self.transient.role == Role::Leader {
            let found = self.find_node(&response.follower);
            match found {
                None => {
                    proof {
                        assert(!has_node(self.topology.nodes@, response.follower@));
                    }
                },
                Some(fi) => {
                    proof {
                        assert(has_node(self.topology.nodes@, response.follower@));
                        let w = node_index(self.topology.nodes@, response.follower@);
                        assert(self.topology.nodes@[w]@ == response.follower@);
                        assert(w == fi as int);
                    }
                    match response.ack {
                        Some(ack) => {
                            if ack >= self.transient.acked_len[fi] {
                                self.transient.sent_len.set(fi, ack);
                                self.transient.acked_len.set(fi, ack);
                                self.commit_commands();
                            }
                        },
                        None => {
                            let sent = self.transient.sent_len[fi];
                            self.transient.sent_len.set(
                                fi,
                                if sent > 0 {
                                    sent - 1
                                } else {
                                    0
                                },
                            );
                        },
                    }
                },
            }
        }
    }
}

} // verus!
