use crabstorm::{Body, Either, KvNode, KvPayload, Message, Op, Outbox, RawOp};

#[test]
fn raw_read_parses() {
    let raw = RawOp("r".to_string(), 4, Either::Right(None));
    match Op::from_raw(raw) {
        Some(Op::Read { key, read }) => {
            assert_eq!(key, 4);
            assert!(read.is_none());
        }
        _ => panic!("expected a read"),
    }
}

#[test]
fn raw_append_parses() {
    let raw = RawOp("append".to_string(), 4, Either::Left(9));
    match Op::from_raw(raw) {
        Some(Op::Append { key, value }) => {
            assert_eq!(key, 4);
            assert_eq!(value, 9);
        }
        _ => panic!("expected an append"),
    }
}

#[test]
fn malformed_raw_ops_are_rejected() {
    assert!(Op::from_raw(RawOp("r".to_string(), 4, Either::Left(9))).is_none());
    assert!(Op::from_raw(RawOp("append".to_string(), 4, Either::Right(None))).is_none());
    assert!(Op::from_raw(RawOp("pop".to_string(), 4, Either::Left(9))).is_none());
}

#[test]
fn ops_round_trip_through_the_wire_shape() {
    let op = Op::Append { key: 3, value: 8 };
    let raw = op.to_raw();
    assert_eq!(raw.0, "append");
    match Op::from_raw(raw) {
        Some(Op::Append { key, value }) => {
            assert_eq!(key, 3);
            assert_eq!(value, 8);
        }
        _ => panic!("expected an append"),
    }

    let op = Op::Read { key: 3, read: None };
    let raw = op.to_raw();
    assert_eq!(raw.0, "r");
    match Op::from_raw(raw) {
        Some(Op::Read { key, read }) => {
            assert_eq!(key, 3);
            assert!(read.is_none());
        }
        _ => panic!("expected a read"),
    }
}

fn txn(node: &mut KvNode, ops: Vec<Op>) -> Vec<Op> {
    let mut out = Outbox::new();
    node.message(
        Message {
            src: "c1".to_string(),
            dst: "n1".to_string(),
            body: Body { id: Some(1), reply: None, payload: KvPayload::Txn { txn: ops } },
        },
        &mut out,
    );
    let reply = out.queue.pop().unwrap();
    assert_eq!(reply.dst, "c1");
    assert_eq!(reply.reply, Some(1));
    match reply.payload {
        KvPayload::TxnOk { txn } => txn,
        _ => panic!("expected txn_ok"),
    }
}

#[test]
fn a_transaction_runs_atomically_in_order() {
    let mut node = KvNode::new();

    let echoed = txn(
        &mut node,
        vec![
            Op::Read { key: 1, read: None },
            Op::Append { key: 1, value: 10 },
            Op::Append { key: 1, value: 11 },
            Op::Read { key: 1, read: None },
        ],
    );

    match &echoed[0] {
        Op::Read { read, .. } => assert!(read.is_none()),
        _ => panic!("expected a read"),
    }
    match &echoed[3] {
        Op::Read { read, .. } => assert_eq!(read.as_deref(), Some(&[10, 11][..])),
        _ => panic!("expected a read"),
    }

    let echoed = txn(&mut node, vec![Op::Read { key: 1, read: None }]);
    match &echoed[0] {
        Op::Read { read, .. } => assert_eq!(read.as_deref(), Some(&[10, 11][..])),
        _ => panic!("expected a read"),
    }
}
