use crabstorm::{Body, EchoNode, EchoPayload, Init, Message, Outbox, Stamper, init_reply};

#[test]
fn echo_reply_mirrors_request() {
    let mut node = EchoNode::new();
    let mut out = Outbox::new();

    let request = Message {
        src: "c1".to_string(),
        dst: "n1".to_string(),
        body: Body { id: Some(1), reply: None, payload: EchoPayload::Echo { echo: "hi".to_string() } },
    };
    node.message(request, &mut out);

    assert_eq!(out.queue.len(), 1);
    let reply = &out.queue[0];
    assert_eq!(reply.dst, "c1");
    assert_eq!(reply.reply, Some(1));
    match &reply.payload {
        EchoPayload::EchoOk { echo } => assert_eq!(echo, "hi"),
        _ => panic!("expected echo_ok"),
    }
}

#[test]
fn first_emission_carries_id_zero() {
    let mut node = EchoNode::new();
    let mut out = Outbox::new();
    let mut stamper = Stamper::new("n1".to_string());

    let request = Message {
        src: "c1".to_string(),
        dst: "n1".to_string(),
        body: Body { id: Some(1), reply: None, payload: EchoPayload::Echo { echo: "hi".to_string() } },
    };
    node.message(request, &mut out);

    let queued = out.queue.remove(0);
    let wire = stamper.stamp(queued);
    assert_eq!(wire.src, "n1");
    assert_eq!(wire.dst, "c1");
    assert_eq!(wire.body.id, Some(0));
    assert_eq!(wire.body.reply, Some(1));
    match &wire.body.payload {
        EchoPayload::EchoOk { echo } => assert_eq!(echo, "hi"),
        _ => panic!("expected echo_ok"),
    }
}

#[test]
fn outbound_ids_strictly_increase() {
    let mut stamper = Stamper::new("n1".to_string());
    let mut last: Option<usize> = None;
    for k in 0..5 {
        let wire = stamper.stamp(crabstorm::Outbound {
            dst: "c1".to_string(),
            reply: None,
            payload: EchoPayload::Echo { echo: format!("{}", k) },
        });
        let id = wire.body.id.unwrap();
        if let Some(prev) = last {
            assert!(prev < id);
        }
        last = Some(id);
    }
}

#[test]
fn init_ok_references_the_init_request() {
    let mut stamper = Stamper::new("n1".to_string());
    let init = Message {
        src: "c0".to_string(),
        dst: "n1".to_string(),
        body: Body {
            id: Some(1),
            reply: None,
            payload: Init { id: "n1".to_string(), nodes: vec!["n1".to_string()] },
        },
    };
    let reply = init_reply(&mut stamper, &init, EchoPayload::Echo { echo: "init_ok".to_string() });
    assert_eq!(reply.body.reply, Some(1));
    assert_eq!(reply.body.id, Some(0));
    assert_eq!(reply.dst, "c0");
}
