use std::rc::Rc;

use crabstorm::raft::RpcType;
use crabstorm::{Body, Init, LinkvNode, LinkvPayload, Message, Outbound, Outbox, Value};

fn cluster() -> Vec<LinkvNode> {
    let ids = ["n1", "n2", "n3"];
    ids.iter()
        .map(|id| {
            let mut node = LinkvNode::new();
            node.init(Init {
                id: id.to_string(),
                nodes: ids.iter().map(|s| s.to_string()).collect(),
            });
            node
        })
        .collect()
}

fn index_of(id: &str) -> Option<usize> {
    match id {
        "n1" => Some(0),
        "n2" => Some(1),
        "n3" => Some(2),
        _ => None,
    }
}

/// Delivers every queued message to its destination node, collecting replies
/// to clients, until the network is quiet.
fn settle(nodes: &mut Vec<LinkvNode>, mut pending: Vec<(String, Outbound<LinkvPayload>)>) -> Vec<
    (String, Outbound<LinkvPayload>),
> {
    let mut to_clients = Vec::new();
    let mut rounds = 0;
    while !pending.is_empty() {
        rounds += 1;
        assert!(rounds < 100, "the network should settle");
        let mut next = Vec::new();
        for (src, o) in pending {
            match index_of(&o.dst) {
                None => to_clients.push((src, o)),
                Some(target) => {
                    let responder = o.dst.clone();
                    let mut out = Outbox::new();
                    nodes[target].message(
                        Message {
                            src: src.clone(),
                            dst: o.dst.clone(),
                            body: Body { id: None, reply: o.reply, payload: o.payload },
                        },
                        &mut out,
                    );
                    for r in out.queue {
                        next.push((responder.clone(), r));
                    }
                }
            }
        }
        pending = next;
    }
    to_clients
}

fn elect_leader(nodes: &mut Vec<LinkvNode>) {
    let vote_request = nodes[0].raft.on_timeout();
    let mut pending = Vec::new();
    for peer in ["n2", "n3"] {
        match &vote_request.payload {
            RpcType::VoteRequest(vr) => {
                let rpc = crabstorm::raft::Rpc {
                    term: vote_request.term,
                    payload: RpcType::VoteRequest(crabstorm::raft::VoteRequest {
                        candidate: vr.candidate.clone(),
                        last_log_index: vr.last_log_index,
                        last_log_term: vr.last_log_term,
                    }),
                };
                pending.push((
                    "n1".to_string(),
                    Outbound {
                        dst: peer.to_string(),
                        reply: None,
                        payload: LinkvPayload::Raft { rpc },
                    },
                ));
            }
            _ => panic!("expected a vote request"),
        }
    }
    let replies = settle(nodes, pending);
    assert!(replies.is_empty());
    assert!(nodes[0].raft.is_leader());
}

/// A replication round from the leader, driven by the periodic event, and
/// everything it causes, delivered to quiescence.
fn tick_leader(nodes: &mut Vec<LinkvNode>) -> Vec<(String, Outbound<LinkvPayload>)> {
    let mut out = Outbox::new();
    nodes[0].event(&mut out);
    let pending = out.queue.into_iter().map(|o| ("n1".to_string(), o)).collect();
    settle(nodes, pending)
}

fn request(
    nodes: &mut Vec<LinkvNode>,
    at: usize,
    msg_id: usize,
    payload: LinkvPayload,
) -> Vec<(String, Outbound<LinkvPayload>)> {
    let mut out = Outbox::new();
    let dst = ["n1", "n2", "n3"][at].to_string();
    nodes[at].message(
        Message {
            src: "c1".to_string(),
            dst,
            body: Body { id: Some(msg_id), reply: None, payload },
        },
        &mut out,
    );
    let responder = ["n1", "n2", "n3"][at].to_string();
    let pending = out.queue.into_iter().map(|o| (responder.clone(), o)).collect();
    settle(nodes, pending)
}

fn key() -> Rc<Value> {
    Rc::new(Value::Number(1))
}

#[test]
fn write_cas_read_converge_across_the_cluster() {
    let mut nodes = cluster();
    elect_leader(&mut nodes);

    // write k=1 v="a" at the leader; the reply arrives once a majority commits
    let replies = request(
        &mut nodes,
        0,
        10,
        LinkvPayload::Write { key: key(), value: Rc::new(Value::Text("a".to_string())) },
    );
    let mut acked = replies;
    for _ in 0..4 {
        if !acked.is_empty() {
            break;
        }
        acked = tick_leader(&mut nodes);
    }
    assert_eq!(acked.len(), 1);
    assert_eq!(acked[0].1.dst, "c1");
    assert_eq!(acked[0].1.reply, Some(10));
    match acked[0].1.payload {
        LinkvPayload::WriteOk => {}
        _ => panic!("expected write_ok"),
    }

    // cas k: "a" -> "b" at a follower; it forwards to the leader
    let replies = request(
        &mut nodes,
        1,
        11,
        LinkvPayload::Cas {
            key: key(),
            from: Rc::new(Value::Text("a".to_string())),
            to: Rc::new(Value::Text("b".to_string())),
        },
    );
    let mut acked = replies;
    for _ in 0..4 {
        if !acked.is_empty() {
            break;
        }
        acked = tick_leader(&mut nodes);
    }
    assert_eq!(acked.len(), 1);
    assert_eq!(acked[0].1.reply, Some(11));
    match acked[0].1.payload {
        LinkvPayload::CasOk => {}
        _ => panic!("expected cas_ok"),
    }

    // spread the commit mark, then read at the third node
    tick_leader(&mut nodes);
    tick_leader(&mut nodes);
    let replies = request(&mut nodes, 2, 12, LinkvPayload::Read { key: key() });
    assert_eq!(replies.len(), 1);
    match &replies[0].1.payload {
        LinkvPayload::ReadOk { value: Some(v) } => {
            assert!(v.equals(&Value::Text("b".to_string())));
        }
        _ => panic!("expected read_ok with a value"),
    }
}

#[test]
fn cas_reports_missing_keys_and_mismatches() {
    let mut nodes = cluster();
    elect_leader(&mut nodes);

    // cas on an empty store: code 20
    let mut acked = request(
        &mut nodes,
        0,
        20,
        LinkvPayload::Cas {
            key: key(),
            from: Rc::new(Value::Number(7)),
            to: Rc::new(Value::Number(8)),
        },
    );
    for _ in 0..4 {
        if !acked.is_empty() {
            break;
        }
        acked = tick_leader(&mut nodes);
    }
    match acked[0].1.payload {
        LinkvPayload::Error { code } => assert_eq!(code, 20),
        _ => panic!("expected an error"),
    }

    // write 1, then cas expecting 2: code 22
    let mut acked = request(
        &mut nodes,
        0,
        21,
        LinkvPayload::Write { key: key(), value: Rc::new(Value::Number(1)) },
    );
    for _ in 0..4 {
        if !acked.is_empty() {
            break;
        }
        acked = tick_leader(&mut nodes);
    }
    assert_eq!(acked.len(), 1);

    let mut acked = request(
        &mut nodes,
        0,
        22,
        LinkvPayload::Cas {
            key: key(),
            from: Rc::new(Value::Number(2)),
            to: Rc::new(Value::Number(3)),
        },
    );
    for _ in 0..4 {
        if !acked.is_empty() {
            break;
        }
        acked = tick_leader(&mut nodes);
    }
    match acked[0].1.payload {
        LinkvPayload::Error { code } => assert_eq!(code, 22),
        _ => panic!("expected an error"),
    }
}

#[test]
fn reads_of_absent_keys_answer_nothing() {
    let mut nodes = cluster();
    let replies = request(&mut nodes, 2, 30, LinkvPayload::Read { key: key() });
    assert_eq!(replies.len(), 1);
    match &replies[0].1.payload {
        LinkvPayload::ReadOk { value } => assert!(value.is_none()),
        _ => panic!("expected read_ok"),
    }
}

#[test]
fn insane_consensus_messages_are_refused() {
    let nodes = cluster();
    // a window whose commit mark reaches past what it carries
    let rpc = crabstorm::raft::Rpc {
        term: 1,
        payload: RpcType::AppendRequest(crabstorm::raft::AppendRequest {
            leader: "n2".to_string(),
            prefix_len: 0,
            prefix_term: 0,
            commit_len: 5,
            suffix: Vec::new(),
        }),
    };
    assert!(!nodes[0].raft.check_rpc(&rpc));

    // an acknowledgement past the leader's log
    let rpc = crabstorm::raft::Rpc {
        term: 1,
        payload: RpcType::AppendResponse(crabstorm::raft::AppendResponse {
            follower: "n2".to_string(),
            ack: Some(3),
        }),
    };
    assert!(!nodes[0].raft.check_rpc(&rpc));

    // an empty heartbeat is sane
    let rpc = crabstorm::raft::Rpc {
        term: 1,
        payload: RpcType::AppendRequest(crabstorm::raft::AppendRequest {
            leader: "n2".to_string(),
            prefix_len: 0,
            prefix_term: 0,
            commit_len: 0,
            suffix: Vec::new(),
        }),
    };
    assert!(nodes[0].raft.check_rpc(&rpc));
}
