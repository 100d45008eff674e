use crabstorm::{Body, BroadcastNode, BroadcastPayload, Init, Message, Outbox};

fn cluster() -> Vec<BroadcastNode> {
    let ids = ["n1", "n2", "n3"];
    ids.iter()
        .map(|id| {
            let mut node = BroadcastNode::new();
            node.init(Init {
                id: id.to_string(),
                nodes: ids.iter().map(|s| s.to_string()).collect(),
            });
            node
        })
        .collect()
}

fn index_of(id: &str) -> usize {
    match id {
        "n1" => 0,
        "n2" => 1,
        "n3" => 2,
        _ => panic!("unknown node"),
    }
}

fn broadcast(nodes: &mut Vec<BroadcastNode>, to: usize, value: usize) {
    let mut out = Outbox::new();
    nodes[to].message(
        Message {
            src: "c1".to_string(),
            dst: "nx".to_string(),
            body: Body {
                id: Some(1),
                reply: None,
                payload: BroadcastPayload::Broadcast { message: value },
            },
        },
        &mut out,
    );
    match out.queue.last().unwrap().payload {
        BroadcastPayload::BroadcastOk => {}
        _ => panic!("expected broadcast_ok"),
    }
}

fn gossip_round(nodes: &mut Vec<BroadcastNode>) {
    for i in 0..3 {
        let mut out = Outbox::new();
        nodes[i].event(&mut out);
        let src = ["n1", "n2", "n3"][i].to_string();
        for o in out.queue {
            let target = index_of(&o.dst);
            let mut sink = Outbox::new();
            nodes[target].message(
                Message {
                    src: src.clone(),
                    dst: o.dst.clone(),
                    body: Body { id: None, reply: None, payload: o.payload },
                },
                &mut sink,
            );
            assert!(sink.queue.is_empty());
        }
    }
}

fn read(nodes: &mut Vec<BroadcastNode>, at: usize) -> Vec<usize> {
    let mut out = Outbox::new();
    nodes[at].message(
        Message {
            src: "c1".to_string(),
            dst: "nx".to_string(),
            body: Body { id: Some(2), reply: None, payload: BroadcastPayload::Read },
        },
        &mut out,
    );
    match &out.queue.last().unwrap().payload {
        BroadcastPayload::ReadOk { messages } => {
            let mut sorted = messages.clone();
            sorted.sort();
            sorted
        }
        _ => panic!("expected read_ok"),
    }
}

#[test]
fn values_spread_to_every_node() {
    let mut nodes = cluster();
    broadcast(&mut nodes, 0, 1);
    broadcast(&mut nodes, 1, 2);

    gossip_round(&mut nodes);
    gossip_round(&mut nodes);

    for i in 0..3 {
        assert_eq!(read(&mut nodes, i), vec![1, 2]);
    }
}

#[test]
fn gossip_skips_what_the_peer_acknowledged() {
    let mut nodes = cluster();
    broadcast(&mut nodes, 0, 1);

    // n1 hears gossip {1} from n2, so n2 is known to hold 1 already
    let mut sink = Outbox::new();
    nodes[0].message(
        Message {
            src: "n2".to_string(),
            dst: "n1".to_string(),
            body: Body {
                id: None,
                reply: None,
                payload: BroadcastPayload::Gossip { messages: vec![1] },
            },
        },
        &mut sink,
    );

    let mut out = Outbox::new();
    nodes[0].event(&mut out);
    for o in &out.queue {
        if o.dst == "n2" {
            match &o.payload {
                BroadcastPayload::Gossip { messages } => {
                    assert!(!messages.contains(&1));
                }
                _ => panic!("expected gossip"),
            }
        }
    }
}

#[test]
fn topology_narrows_the_neighbours() {
    let mut nodes = cluster();
    let mut out = Outbox::new();
    nodes[0].message(
        Message {
            src: "c1".to_string(),
            dst: "n1".to_string(),
            body: Body {
                id: Some(3),
                reply: None,
                payload: BroadcastPayload::Topology {
                    topology: vec![
                        ("n1".to_string(), vec!["n2".to_string()]),
                        ("n2".to_string(), vec!["n1".to_string(), "n3".to_string()]),
                        ("n3".to_string(), vec!["n2".to_string()]),
                    ],
                },
            },
        },
        &mut out,
    );
    match out.queue.last().unwrap().payload {
        BroadcastPayload::TopologyOk => {}
        _ => panic!("expected topology_ok"),
    }

    broadcast(&mut nodes, 0, 9);
    let mut gossip = Outbox::new();
    nodes[0].event(&mut gossip);
    assert_eq!(gossip.queue.len(), 1);
    assert_eq!(gossip.queue[0].dst, "n2");
}
