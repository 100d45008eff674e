use vstd::prelude::*;

verus! {

/// A protocol envelope: source node, destination node, typed body.
pub struct Message<Payload> {
    pub src: String,
    pub dst: String,
    pub body: Body<Payload>,
}

/// The body of an envelope: outbound sequence id, optional reference to the
/// request being answered, and the workload payload.
pub struct Body<Payload> {
    pub id: Option<usize>,
    pub reply: Option<usize>,
    pub payload: Payload,
}

/// The init control message: this node's id and the full cluster membership,
/// including this node.
pub struct Init {
    pub id: String,
    pub nodes: Vec<String>,
}

/// An outbound request queued by a workload callback: destination,
/// `in_reply_to` reference, payload. The sequence id is assigned later, at
/// emit time.
pub struct Outbound<Payload> {
    pub dst: String,
    pub reply: Option<usize>,
    pub payload: Payload,
}

/// The queue a workload callback writes its outbound messages to. The event
/// loop drains it in order between dispatches.
pub struct Outbox<Payload> {
    pub queue: Vec<Outbound<Payload>>,
}

impl<Payload> Outbox<Payload> {
    /// An empty queue.
    pub fn new() -> (r: Self)
        ensures
            r.queue@ =~= Seq::<Outbound<Payload>>::empty(),
    {
        Outbox { queue: Vec::new() }
    }

    /// Enqueues one outbound message; infallible and order-preserving.
    pub fn send(&mut self, dst: String, reply: Option<usize>, payload: Payload)
        ensures
            final(self).queue@ == old(self).queue@.push(
                Outbound { dst, reply, payload },
            ),
    {
        self.queue.push(Outbound { dst, reply, payload });
    }
}

/// Stamps outbound envelopes with this process's strictly increasing
/// sequence ids. The writer owns the counter; the first emission gets id 0.
pub struct Stamper {
    pub id: String,
    pub next: usize,
}

impl Stamper {
    /// A fresh stamper for node `id`; the first stamped message gets id 0.
    pub fn new(id: String) -> (r: Self)
        ensures
            r.id == id,
            r.next == 0,
    {
        Stamper { id, next: 0 }
    }

    /// Turns one queued outbound request into a wire envelope, assigning the
    /// next sequence id.
    pub fn stamp<Payload>(&mut self, out: Outbound<Payload>) -> (m: Message<Payload>)
        requires
            old(self).next < usize::MAX,
        ensures
            final(self).id == old(self).id,
            final(self).next == old(self).next + 1,
            m.src == old(self).id,
            m.dst == out.dst,
            m.body.id == Some(old(self).next),
            m.body.reply == out.reply,
            m.body.payload == out.payload,
    {
        let id = self.next;
        self.next = self.next + 1;
        Message {
            src: self.id.clone(),
            dst: out.dst,
            body: Body { id: Some(id), reply: out.reply, payload: out.payload },
        }
    }
}

/// The runtime's reply to the init handshake: `init_ok`, echoing the
/// request's `msg_id` in `in_reply_to`.
pub fn init_reply<Payload>(stamper: &mut Stamper, init: &Message<Init>, ok: Payload) -> (m: Message<
    Payload,
>)
    requires
        old(stamper).next < usize::MAX,
    ensures
        final(stamper).id == old(stamper).id,
        final(stamper).next == old(stamper).next + 1,
        m.src == old(stamper).id,
        m.dst == init.src,
        m.body.id == Some(old(stamper).next),
        m.body.reply == init.body.id,
        m.body.payload == ok,
{
    stamper.stamp(
        Outbound { dst: init.src.clone(), reply: init.body.id, payload: ok },
    )
}

/// Law: sequence ids are strictly increasing within a process. Of two
/// emissions stamped by the same counter, one after the other, the earlier
/// carries the smaller id; ids are assigned at emit time and never reused.
pub proof fn lemma_msg_ids_strictly_increase<P1, P2>(
    s0: Stamper,
    m1: Message<P1>,
    s1: Stamper,
    m2: Message<P2>,
    s2: Stamper,
)
    requires
        m1.body.id == Some(s0.next),
        s1.next == s0.next + 1,
        m2.body.id == Some(s1.next),
        s2.next == s1.next + 1,
    ensures
        m1.body.id->0 < m2.body.id->0,
{
}

} // verus!
