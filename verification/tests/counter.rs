use crabstorm::{Body, CounterNode, CounterPayload, Init, Message, Outbound, Outbox};

fn cluster() -> Vec<CounterNode> {
    let ids = ["n1", "n2", "n3"];
    ids.iter()
        .map(|id| {
            let mut node = CounterNode::new();
            node.init(Init {
                id: id.to_string(),
                nodes: ids.iter().map(|s| s.to_string()).collect(),
            });
            node
        })
        .collect()
}

fn index_of(id: &str) -> usize {
    match id {
        "n1" => 0,
        "n2" => 1,
        "n3" => 2,
        _ => panic!("unknown node"),
    }
}

fn deliver(nodes: &mut Vec<CounterNode>, src: &str, o: Outbound<CounterPayload>) -> Outbox<CounterPayload> {
    let mut out = Outbox::new();
    let target = index_of(&o.dst);
    nodes[target].message(
        Message {
            src: src.to_string(),
            dst: o.dst.clone(),
            body: Body { id: None, reply: o.reply, payload: o.payload },
        },
        &mut out,
    );
    out
}

fn gossip_round(nodes: &mut Vec<CounterNode>) {
    for i in 0..3 {
        let mut out = Outbox::new();
        nodes[i].event(&mut out);
        let src = ["n1", "n2", "n3"][i].to_string();
        for o in out.queue {
            let responder = o.dst.clone();
            let replies = deliver(nodes, &src, o);
            for r in replies.queue {
                deliver(nodes, &responder, r);
            }
        }
    }
}

fn read(node: &mut CounterNode) -> usize {
    let mut out = Outbox::new();
    node.message(
        Message {
            src: "c1".to_string(),
            dst: "nx".to_string(),
            body: Body { id: Some(1), reply: None, payload: CounterPayload::Read },
        },
        &mut out,
    );
    match out.queue.last().unwrap().payload {
        CounterPayload::ReadOk { value } => value,
        _ => panic!("expected read_ok"),
    }
}

#[test]
fn adds_converge_to_the_global_sum() {
    let mut nodes = cluster();

    let mut out = Outbox::new();
    nodes[0].message(
        Message {
            src: "c1".to_string(),
            dst: "n1".to_string(),
            body: Body { id: Some(1), reply: None, payload: CounterPayload::Add { delta: 10 } },
        },
        &mut out,
    );
    nodes[1].message(
        Message {
            src: "c2".to_string(),
            dst: "n2".to_string(),
            body: Body { id: Some(2), reply: None, payload: CounterPayload::Add { delta: 5 } },
        },
        &mut out,
    );

    gossip_round(&mut nodes);
    gossip_round(&mut nodes);

    for i in 0..3 {
        assert_eq!(read(&mut nodes[i]), 15);
    }
}

#[test]
fn read_never_exceeds_the_global_sum() {
    let mut nodes = cluster();
    let mut out = Outbox::new();
    nodes[0].message(
        Message {
            src: "c1".to_string(),
            dst: "n1".to_string(),
            body: Body { id: Some(1), reply: None, payload: CounterPayload::Add { delta: 7 } },
        },
        &mut out,
    );
    // only one gossip round: some nodes may lag, none may overshoot
    gossip_round(&mut nodes);
    for i in 0..3 {
        assert!(read(&mut nodes[i]) <= 7);
    }
}

#[test]
fn gossip_is_confirmed_back() {
    let mut nodes = cluster();
    let mut out = Outbox::new();
    nodes[0].message(
        Message {
            src: "c1".to_string(),
            dst: "n1".to_string(),
            body: Body { id: Some(1), reply: None, payload: CounterPayload::Add { delta: 3 } },
        },
        &mut out,
    );
    gossip_round(&mut nodes);
    // everything confirmed: a fresh anti-entropy round stays silent at n1
    let mut quiet = Outbox::new();
    nodes[0].event(&mut quiet);
    assert!(quiet.queue.is_empty());
}
