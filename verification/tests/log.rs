use crabstorm::{Body, Log, LogNode, LogPayload, Message, Outbox};

#[test]
fn log_push() {
    let mut log = Log::default();
    assert_eq!(log.push(12), 1);
    assert_eq!(log.push(23), 2);
    assert_eq!(log.push(58), 3);
}

#[test]
fn log_poll() {
    let mut log = Log::default();
    log.push(12);
    log.push(23);

    assert_eq!(log.poll(1), vec![(1, 12), (2, 23)]);
    assert_eq!(log.poll(2), vec![(2, 23)]);
    assert!(log.poll(3).is_empty());
    assert!(log.poll(4).is_empty());

    log.push(58);
    assert_eq!(log.poll(1), vec![(1, 12), (2, 23), (3, 58)]);
    assert_eq!(log.poll(2), vec![(2, 23), (3, 58)]);
    assert_eq!(log.poll(3), vec![(3, 58)]);
}

#[test]
fn log_commit() {
    let mut log = Log::default();
    log.push(12);
    log.push(23);
    log.push(58);

    assert_eq!(log.poll(1), vec![(1, 12), (2, 23), (3, 58)]);

    log.commit(2);
    assert_eq!(log.commited(), 2);
}

#[test]
fn log_poll_caps_at_twenty() {
    let mut log = Log::default();
    for i in 0..25 {
        log.push(i);
    }
    let polled = log.poll(1);
    assert_eq!(polled.len(), 20);
    assert_eq!(polled[0], (1, 0));
    assert_eq!(polled[19], (20, 19));
}

fn request(payload: LogPayload) -> Message<LogPayload> {
    Message {
        src: "c1".to_string(),
        dst: "n1".to_string(),
        body: Body { id: Some(7), reply: None, payload },
    }
}

#[test]
fn log_node_send_assigns_offsets() {
    let mut node = LogNode::new();
    let mut out = Outbox::new();

    node.message(
        request(LogPayload::Send { key: "k1".to_string(), msg: 12 }),
        &mut out,
    );
    node.message(
        request(LogPayload::Send { key: "k1".to_string(), msg: 23 }),
        &mut out,
    );
    node.message(
        request(LogPayload::Send { key: "k2".to_string(), msg: 9 }),
        &mut out,
    );

    let offsets: Vec<i32> = out
        .queue
        .iter()
        .map(|o| match &o.payload {
            LogPayload::SendOk { offset } => *offset,
            _ => panic!("unexpected reply"),
        })
        .collect();
    assert_eq!(offsets, vec![1, 2, 1]);
}

#[test]
fn log_node_poll_and_commit() {
    let mut node = LogNode::new();
    let mut out = Outbox::new();

    node.message(
        request(LogPayload::Send { key: "k1".to_string(), msg: 12 }),
        &mut out,
    );
    node.message(
        request(LogPayload::Send { key: "k1".to_string(), msg: 23 }),
        &mut out,
    );

    node.message(
        request(LogPayload::Poll { offsets: vec![("k1".to_string(), 1), ("nope".to_string(), 1)] }),
        &mut out,
    );
    match &out.queue.last().unwrap().payload {
        LogPayload::PollOk { msgs } => {
            assert_eq!(msgs.len(), 1);
            assert_eq!(msgs[0].0, "k1");
            assert_eq!(msgs[0].1, vec![(1, 12), (2, 23)]);
        }
        _ => panic!("expected poll_ok"),
    }

    node.message(
        request(LogPayload::CommitOffsets { offsets: vec![("k1".to_string(), 2)] }),
        &mut out,
    );
    node.message(
        request(
            LogPayload::ListCommittedOffsets {
                keys: vec!["k1".to_string(), "nope".to_string()],
            },
        ),
        &mut out,
    );
    match &out.queue.last().unwrap().payload {
        LogPayload::ListCommittedOffsetsOk { offsets } => {
            assert_eq!(offsets.len(), 1);
            assert_eq!(offsets[0].0, "k1");
            assert_eq!(offsets[0].1, 2);
        }
        _ => panic!("expected list_committed_offsets_ok"),
    }
}
