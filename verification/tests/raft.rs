use crabstorm::raft::{Delivery, Raft, Rpc, RpcType};

fn cluster() -> Vec<Raft<u64>> {
    let ids = ["n1", "n2", "n3"];
    ids.iter()
        .map(|id| Raft::new(id.to_string(), ids.iter().map(|s| s.to_string()).collect()))
        .collect()
}

fn index_of(id: &str) -> usize {
    match id {
        "n1" => 0,
        "n2" => 1,
        "n3" => 2,
        _ => panic!("unknown node"),
    }
}

/// Runs an election at `candidate`, delivering messages only to `reachable`.
fn elect(nodes: &mut Vec<Raft<u64>>, candidate: usize, reachable: &[usize]) {
    let ids = ["n1", "n2", "n3"];
    let vote_request = nodes[candidate].on_timeout();
    let mut responses = Vec::new();
    for &peer in reachable {
        if peer == candidate {
            continue;
        }
        let reply = nodes[peer].on_vote_request(
            vote_request.term,
            match &vote_request.payload {
                RpcType::VoteRequest(vr) => crabstorm::raft::VoteRequest {
                    candidate: vr.candidate.clone(),
                    last_log_index: vr.last_log_index,
                    last_log_term: vr.last_log_term,
                },
                _ => panic!("expected a vote request"),
            },
        );
        responses.push((ids[peer].to_string(), reply));
    }
    for (_, reply) in responses {
        match reply.payload {
            RpcType::VoteResponse(vr) => nodes[candidate].on_vote_response(reply.term, vr),
            _ => panic!("expected a vote response"),
        }
    }
}

/// Delivers a replication round from the leader and its acknowledgements
/// back, for `reachable` followers.
fn replicate(nodes: &mut Vec<Raft<u64>>, leader: usize, reachable: &[usize]) {
    let round = match nodes[leader].tick() {
        Some(Delivery::Multicast(msgs)) => msgs,
        _ => panic!("expected a replication round"),
    };
    for (dst, rpc) in round {
        let target = index_of(&dst);
        if !reachable.contains(&target) {
            continue;
        }
        let leader_id = nodes[leader].id().clone();
        let reply = nodes[target].process(leader_id, rpc);
        match reply {
            Some(Delivery::Unicast(to, ack)) => {
                assert_eq!(index_of(&to), leader);
                match ack.payload {
                    RpcType::AppendResponse(ar) => nodes[leader].on_append_response(ack.term, ar),
                    _ => panic!("expected an append response"),
                }
            }
            _ => panic!("expected a unicast acknowledgement"),
        }
    }
}

#[test]
fn a_majority_elects_a_leader() {
    let mut nodes = cluster();
    elect(&mut nodes, 0, &[0, 1, 2]);
    assert!(nodes[0].is_leader());
    assert!(!nodes[1].is_leader());
    assert!(!nodes[2].is_leader());
}

#[test]
fn a_lone_candidate_stays_unelected() {
    let mut nodes = cluster();
    elect(&mut nodes, 0, &[0]);
    assert!(!nodes[0].is_leader());
}

#[test]
fn a_vote_is_granted_once_per_term() {
    let mut nodes = cluster();
    // n1 and n2 both time out into the same term and ask n3
    let rq1 = nodes[0].on_timeout();
    let rq2 = nodes[1].on_timeout();
    assert_eq!(rq1.term, rq2.term);

    let first = match rq1.payload {
        RpcType::VoteRequest(vr) => nodes[2].on_vote_request(rq1.term, vr),
        _ => panic!("expected a vote request"),
    };
    let second = match rq2.payload {
        RpcType::VoteRequest(vr) => nodes[2].on_vote_request(rq2.term, vr),
        _ => panic!("expected a vote request"),
    };
    let granted = |r: &Rpc<u64>| match &r.payload {
        RpcType::VoteResponse(vr) => vr.granted,
        _ => panic!("expected a vote response"),
    };
    assert!(granted(&first));
    assert!(!granted(&second));
}

#[test]
fn a_new_leader_emerges_after_a_partition() {
    let mut nodes = cluster();
    elect(&mut nodes, 0, &[0, 1, 2]);
    assert!(nodes[0].is_leader());

    // the leader is cut off; n2 times out and wins over n3
    elect(&mut nodes, 1, &[1, 2]);
    assert!(nodes[1].is_leader());
    assert!(nodes[1].persistent.term > nodes[0].persistent.term);
}

#[test]
fn commands_commit_once_a_majority_acknowledges() {
    let mut nodes = cluster();
    elect(&mut nodes, 0, &[0, 1, 2]);

    let delivery = nodes[0].apply(41);
    assert!(delivery.is_some());
    replicate(&mut nodes, 0, &[1, 2]);
    // acknowledgements advanced the commit mark; the command pops out
    assert_eq!(nodes[0].consume(), Some(41));
    assert_eq!(nodes[0].consume(), None);

    // the next round carries the leader's commit mark to the followers
    replicate(&mut nodes, 0, &[1, 2]);
    assert_eq!(nodes[1].consume(), Some(41));
    assert_eq!(nodes[2].consume(), Some(41));
}

#[test]
fn a_follower_forwards_commands_to_the_leader() {
    let mut nodes = cluster();
    elect(&mut nodes, 0, &[0, 1, 2]);
    // the follower learns the leader from a heartbeat
    replicate(&mut nodes, 0, &[1, 2]);

    let forwarded = nodes[1].apply(9);
    match forwarded {
        Some(Delivery::Unicast(to, rpc)) => {
            assert_eq!(to, "n1");
            let reply = nodes[0].process("n2".to_string(), rpc);
            assert!(reply.is_some());
        }
        _ => panic!("expected the command to be forwarded"),
    }
    replicate(&mut nodes, 0, &[1, 2]);
    assert_eq!(nodes[0].consume(), Some(9));
}

#[test]
fn the_election_timer_draws_within_its_window() {
    let timer = crabstorm::raft::Timer::new(1000, 1000);
    assert!(timer.timeout >= 1000);
    assert!(timer.timeout < 2000);
    assert!(!timer.expired_at(timer.last));
    assert!(timer.expired_at(timer.last + timer.timeout + 1));
}
