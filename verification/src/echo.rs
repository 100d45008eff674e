use vstd::prelude::*;

use crate::node::{Message, Outbound, Outbox};

verus! {

/// The echo workload's messages.
pub enum EchoPayload {
    Echo { echo: String },
    EchoOk { echo: String },
}

/// The echo workload: every request is answered with its own text.
pub struct EchoNode {
}

impl EchoNode {
    /// A fresh echo node.
    pub fn new() -> (r: Self)
        ensures
            r == (EchoNode {  }),
    {
        EchoNode {  }
    }

    /// Answers an echo request: one `echo_ok` back to the sender, in reply to
    /// the request, carrying the same text.
    pub fn message(&mut self, message: Message<EchoPayload>, out: &mut Outbox<EchoPayload>)
        requires
            message.body.payload is Echo,
        ensures
            *final(self) == *old(self),
            final(out).queue@ == old(out).queue@.push(
                Outbound {
                    dst: message.src,
                    reply: message.body.id,
                    payload: EchoPayload::EchoOk {
                        echo: message.body.payload->Echo_echo,
                    },
                },
            ),
    {
        match message.body.payload {
            EchoPayload::Echo { echo } => {
                out.send(message.src, message.body.id, EchoPayload::EchoOk { echo });
            },
            _ => {
            },
        }
    }
}

} // verus!
