use std::rc::Rc;

use crabstorm::{Body, Init, Message, Outbox, SetNode, SetPayload, Value};

fn node(id: &str) -> SetNode {
    let mut n = SetNode::new();
    n.init(Init {
        id: id.to_string(),
        nodes: vec!["n1".to_string(), "n2".to_string()],
    });
    n
}

fn add(n: &mut SetNode, v: Value) {
    let mut out = Outbox::new();
    n.message(
        Message {
            src: "c1".to_string(),
            dst: "nx".to_string(),
            body: Body { id: Some(1), reply: None, payload: SetPayload::Add { element: Rc::new(v) } },
        },
        &mut out,
    );
    match out.queue.last().unwrap().payload {
        SetPayload::AddOk => {}
        _ => panic!("expected add_ok"),
    }
}

fn read(n: &mut SetNode) -> Vec<Rc<Value>> {
    let mut out = Outbox::new();
    n.message(
        Message {
            src: "c1".to_string(),
            dst: "nx".to_string(),
            body: Body { id: Some(2), reply: None, payload: SetPayload::Read },
        },
        &mut out,
    );
    match out.queue.pop().unwrap().payload {
        SetPayload::ReadOk { value } => value,
        _ => panic!("expected read_ok"),
    }
}

#[test]
fn adds_are_deduplicated_structurally() {
    let mut n = node("n1");
    add(&mut n, Value::Number(1));
    add(&mut n, Value::Number(1));
    add(&mut n, Value::Text("x".to_string()));
    assert_eq!(read(&mut n).len(), 2);
}

#[test]
fn replication_merges_by_union() {
    let mut a = node("n1");
    let mut b = node("n2");
    add(&mut a, Value::Number(1));
    add(&mut b, Value::Number(2));
    add(&mut b, Value::Number(1));

    let mut out = Outbox::new();
    a.event(&mut out);
    let to_b = out
        .queue
        .into_iter()
        .find(|o| o.dst == "n2")
        .expect("a replicates to its neighbours");
    let mut sink = Outbox::new();
    b.message(
        Message {
            src: "n1".to_string(),
            dst: "n2".to_string(),
            body: Body { id: None, reply: None, payload: to_b.payload },
        },
        &mut sink,
    );
    assert!(sink.queue.is_empty());
    assert_eq!(read(&mut b).len(), 2);
}
