use vstd::prelude::*;

use super::command::Command;

verus! {

/// The role a node currently plays in the consensus protocol.
#[derive(Clone, Copy, PartialEq, Eq, Structural, Debug)]
pub enum Role {
    Follower,
    Candidate,
    Leader,
}

/// The fixed cluster membership: this node's id and every node's id,
/// including this node.
pub struct Topology {
    pub id: String,
    pub nodes: Vec<String>,
}

impl Topology {
    /// The number of nodes in the cluster.
    pub fn count(&self) -> (n: usize)
        ensures
            n == self.nodes@.len(),
    {
        self.nodes.len()
    }
}

/// One replicated log entry: the term it was appended in and the command.
pub struct Log<C> {
    pub term: u32,
    pub command: C,
}

impl<C: Command> Log<C> {
    /// A copy of this entry, equal to the original.
    pub fn duplicate(&self) -> (r: Self)
        ensures
            r == *self,
    {
        Log { term: self.term, command: self.command.duplicate() }
    }
}

/// The state a node must keep across restarts: current term, the vote cast
/// this term, the replicated log and the length of its committed prefix.
pub struct PersistentState<C> {
    pub term: u32,
    pub voted_for: Option<String>,
    pub commit_len: usize,
    pub log: Vec<Log<C>>,
}

impl<C> Default for PersistentState<C> {
    /// The state of a node that has seen nothing: term 0, no vote, an empty
    /// log with nothing committed.
    fn default() -> (r: Self)
        ensures
            r.term == 0,
            r.voted_for is None,
            r.commit_len == 0,
            r.log@ == Seq::<Log<C>>::empty(),
    {
        PersistentState { term: 0, voted_for: None, commit_len: 0, log: Vec::new() }
    }
}

impl<C> PersistentState<C> {
    /// The durability hook; a placeholder in this design.
    pub fn persist(&self) {
    }

    /// The recovery hook; a placeholder in this design.
    pub fn load(&mut self)
        ensures
            *final(self) == *old(self),
    {
    }

    /// The term of the last log entry, if any.
    pub fn last_log_term(&self) -> (r: Option<u32>)
        ensures
            self.log@.len() == 0 ==> r is None,
            self.log@.len() > 0 ==> r == Some(self.log@.last().term),
    {
        if self.log.len() == 0 {
            None
        } else {
            Some(self.log[self.log.len() - 1].term)
        }
    }
}

/// The state a node may lose: its role, the last known leader, the votes
/// gathered in the current election, and the leader's per-peer bookkeeping.
/// The three vectors run parallel to `Topology::nodes`.
pub struct TransientState {
    pub role: Role,
    pub leader: Option<String>,
    pub votes_received: Vec<bool>,
    pub sent_len: Vec<usize>,
    pub acked_len: Vec<usize>,
    pub consumed: usize,
}

} // verus!
