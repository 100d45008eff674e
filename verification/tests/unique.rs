use crabstorm::{Body, Message, Outbox, UniqueNode, UniquePayload};

fn generate(node: &mut UniqueNode, out: &mut Outbox<UniquePayload>, msg_id: usize) -> String {
    let request = Message {
        src: "c1".to_string(),
        dst: "n1".to_string(),
        body: Body { id: Some(msg_id), reply: None, payload: UniquePayload::Generate },
    };
    node.message(request, out);
    match &out.queue.last().unwrap().payload {
        UniquePayload::GenerateOk { id } => id.clone(),
        _ => panic!("expected generate_ok"),
    }
}

#[test]
fn two_consecutive_ids_differ() {
    let mut node = UniqueNode::new();
    let mut out = Outbox::new();
    let a = generate(&mut node, &mut out, 1);
    let b = generate(&mut node, &mut out, 2);
    assert_ne!(a, b);
}

#[test]
fn ids_are_canonical_26_characters() {
    let mut node = UniqueNode::new();
    let mut out = Outbox::new();
    let id = generate(&mut node, &mut out, 1);
    assert_eq!(id.chars().count(), 26);
}

#[test]
fn interleaved_ids_do_not_collide() {
    let mut n1 = UniqueNode::new();
    let mut n2 = UniqueNode::new();
    let mut n3 = UniqueNode::new();
    let mut out = Outbox::new();
    let mut seen = std::collections::BTreeSet::new();
    for k in 0..40_000 {
        assert!(seen.insert(generate(&mut n1, &mut out, k)));
        assert!(seen.insert(generate(&mut n2, &mut out, k)));
        assert!(seen.insert(generate(&mut n3, &mut out, k)));
        out.queue.clear();
    }
    assert_eq!(seen.len(), 120_000);
}
