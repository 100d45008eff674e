use vstd::prelude::*;

use crate::node::{Message, Outbound, Outbox};

verus! {

/// The unique-id workload's messages.
pub enum UniquePayload {
    Generate,
    GenerateOk { id: String },
}

/// Relies on ulid::Ulid::generate and Ulid::to_string: a time-ordered
/// 128-bit identifier rendered as its 26-character canonical Crockford
/// Base32 string. The identifier draws on the clock and randomness, so only
/// the rendering's length is promised.
#[verifier::external_body]
fn fresh_id() -> (r: String)
    ensures
        r@.len() == 26,
{
    ulid::Ulid::generate().to_string()
}

/// The unique-id workload: every request is answered with a fresh
/// time-ordered identifier.
pub struct UniqueNode {
}

impl UniqueNode {
    /// A fresh unique-id node.
    pub fn new() -> (r: Self)
        ensures
            r == (UniqueNode {  }),
    {
        UniqueNode {  }
    }

    /// Answers a generate request: one `generate_ok` back to the sender, in
    /// reply to the request, carrying a 26-character identifier.
    pub fn message(&mut self, message: Message<UniquePayload>, out: &mut Outbox<UniquePayload>)
        requires
            message.body.payload is Generate,
        ensures
            *final(self) == *old(self),
            final(out).queue@.len() == old(out).queue@.len() + 1,
            old(out).queue@.is_prefix_of(final(out).queue@),
            final(out).queue@.last().dst == message.src,
            final(out).queue@.last().reply == message.body.id,
            final(out).queue@.last().payload matches UniquePayload::GenerateOk { id } && id@.len()
                == 26,
    {
        let id = fresh_id();
        out.send(message.src, message.body.id, UniquePayload::GenerateOk { id });
    }
}

} // verus!
