use vstd::prelude::*;

use super::state::Log;

verus! {

/// A consensus message: the sender's term and the typed payload.
pub struct Rpc<C> {
    pub term: u32,
    pub payload: RpcType<C>,
}

/// The consensus message taxonomy.
pub enum RpcType<C> {
    VoteRequest(VoteRequest),
    VoteResponse(VoteResponse),
    AppendRequest(AppendRequest<C>),
    AppendResponse(AppendResponse),
    ForwardRequest(ForwardRequest<C>),
}

/// A candidate asks for a vote, stating how up to date its log is.
pub struct VoteRequest {
    pub candidate: String,
    pub last_log_index: usize,
    pub last_log_term: u32,
}

/// A voter's answer to a vote request.
pub struct VoteResponse {
    pub voter: String,
    pub granted: bool,
}

/// A leader replicates a log window: the length and last term of the prefix
/// the follower is believed to hold, the leader's commit length, and the
/// entries that follow the prefix.
pub struct AppendRequest<C> {
    pub leader: String,
    pub prefix_len: usize,
    pub prefix_term: u32,
    pub commit_len: usize,
    pub suffix: Vec<Log<C>>,
}

/// A follower's answer to a replication window: the new match length on
/// success, absent on rejection.
pub struct AppendResponse {
    pub follower: String,
    pub ack: Option<usize>,
}

/// A non-leader routes a client command to the believed leader.
pub struct ForwardRequest<C> {
    pub follower: String,
    pub command: C,
}

} // verus!
