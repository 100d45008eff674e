use std::rc::Rc;

use vstd::prelude::*;

use crate::node::{Init, Message, Outbound, Outbox};
use crate::value::{Value, deep_eq, lemma_deep_eq_trans, rc_clone};

verus! {

/// Whether a value is in the sequence, structurally.
pub open spec fn holds_value(s: Seq<Rc<Value>>, x: Value) -> bool {
    exists|i: int| 0 <= i < s.len() && deep_eq(*s[i], x)
}

/// Pairwise structurally distinct values.
pub open spec fn distinct_values(s: Seq<Rc<Value>>) -> bool {
    forall|i: int, j: int| 0 <= i < j < s.len() ==> !deep_eq(*s[i], *s[j])
}

/// The grow-only set workload's messages.
pub enum SetPayload {
    Add { element: Rc<Value> },
    AddOk,
    Read,
    ReadOk { value: Vec<Rc<Value>> },
    Replicate { elements: Vec<Rc<Value>> },
}

/// The grow-only set workload: a local set of values, merged by union,
/// replicated in full to every neighbour on a periodic event.
pub struct SetNode {
    pub id: String,
    pub neighbors: Vec<String>,
    pub set: Vec<Rc<Value>>,
}

impl SetNode {
    /// The set holds no value twice.
    pub open spec fn wf(self) -> bool {
        distinct_values(self.set@)
    }

    /// An empty set with no neighbours yet.
    pub fn new() -> (r: Self)
        ensures
            r.wf(),
            r.set@ == Seq::<Rc<Value>>::empty(),
            r.neighbors@ == Seq::<String>::empty(),
    {
        SetNode { id: String::new(), neighbors: Vec::new(), set: Vec::new() }
    }

    /// Adopts the cluster membership as the replication neighbours.
    pub fn init(&mut self, init: Init)
        ensures
            final(self).id == init.id,
            final(self).neighbors == init.nodes,
            final(self).set == old(self).set,
            final(self).wf() == old(self).wf(),
    {
        self.id = init.id;
        self.neighbors = init.nodes;
    }

    /// Inserts a value unless a structurally equal one is present.
    fn insert(&mut self, element: Rc<Value>)
        requires
            old(self).wf(),
        ensures
            final(self).wf(),
            final(self).id == old(self).id,
            final(self).neighbors == old(self).neighbors,
            old(self).set@.is_prefix_of(final(self).set@),
            holds_value(old(self).set@, *element) ==> final(self).set == old(self).set,
            !holds_value(old(self).set@, *element) ==> final(self).set@ == old(self).set@.push(
                element,
            ),
            forall|x: Value|
                holds_value(final(self).set@, x) == (holds_value(old(self).set@, x) || deep_eq(
                    *element,
                    x,
                )),
    {
        let n = self.set.len();
        let mut i: usize = 0;
        while i < n
            invariant
                i <= n,
                self.wf(),
                *self == *old(self),
                n == self.set@.len(),
                forall|j: int| 0 <= j < i ==> !deep_eq(*self.set@[j], *element),
            decreases n - i,
        {
            if self.set[i].equals(&element) {
                proof {
                    assert forall|x: Value|
                        holds_value(self.set@, x) == (holds_value(self.set@, x) || deep_eq(
                            *element,
                            x,
                        )) by {
                        if deep_eq(*element, x) {
                            lemma_deep_eq_trans(*self.set@[i as int], *element, x);
                        }
                    }
                }
                return ;
            }
            i = i + 1;
        }
        self.set.push(element);
        proof {
            assert(self.set@.drop_last() =~= old(self).set@);
            assert(self.set@.last() == element);
            assert forall|x: Value|
                holds_value(self.set@, x) == (holds_value(old(self).set@, x) || deep_eq(
                    *element,
                    x,
                )) by {
                if holds_value(old(self).set@, x) {
                    let w = choose|i: int|
                        0 <= i < old(self).set@.len() && deep_eq(*old(self).set@[i], x);
                    assert(deep_eq(*self.set@[w], x));
                }
                if deep_eq(*element, x) {
                    assert(deep_eq(*self.set@[self.set@.len() - 1], x));
                }
            }
        }
    }

    /// Absorbs one request. An `add` inserts the value and is acknowledged; a
    /// `read` is answered with the whole set; `replicate` merges the carried
    /// values by union.
    pub fn message(&mut self, message: Message<SetPayload>, out: &mut Outbox<SetPayload>)
        requires
            old(self).wf(),
            !(message.body.payload is AddOk),
            !(message.body.payload is ReadOk),
        ensures
            final(self).wf(),
            final(self).id == old(self).id,
            final(self).neighbors == old(self).neighbors,
            old(self).set@.is_prefix_of(final(self).set@),
            match message.body.payload {
                SetPayload::Add { element } => {
                    &&& (forall|x: Value|
                        holds_value(final(self).set@, x) == (holds_value(old(self).set@, x)
                            || deep_eq(*element, x)))
                    &&& final(out).queue@ == old(out).queue@.push(
                        Outbound {
                            dst: message.src,
                            reply: message.body.id,
                            payload: SetPayload::AddOk,
                        },
                    )
                },
                SetPayload::Read => {
                    &&& final(self).set == old(self).set
                    &&& final(out).queue@.len() == old(out).queue@.len() + 1
                    &&& old(out).queue@.is_prefix_of(final(out).queue@)
                    &&& final(out).queue@.last().dst == message.src
                    &&& final(out).queue@.last().reply == message.body.id
                    &&& final(out).queue@.last().payload matches SetPayload::ReadOk { value }
                        && value@ == old(self).set@
                },
                SetPayload::Replicate { elements } => {
                    &&& (forall|x: Value|
                        holds_value(final(self).set@, x) == (holds_value(old(self).set@, x)
                            || holds_value(elements@, x)))
                    &&& final(out).queue@ == old(out).queue@
                },
                _ => false,
            },
    {
        let dst = message.src;
        let rply = message.body.id;

        match message.body.payload {
            SetPayload::Add { element } => {
                self.insert(element);
                out.send(dst, rply, SetPayload::AddOk);
            },
            SetPayload::Read => {
                let value = copy_set(&self.set);
                out.send(dst, rply, SetPayload::ReadOk { value });
            },
            SetPayload::Replicate { elements } => {
                self.merge(elements);
            },
            _ => {
            },
        }
    }

    /// Merges a replicated set by union.
    fn merge(&mut self, elements: Vec<Rc<Value>>)
        requires
            old(self).wf(),
        ensures
            final(self).wf(),
            final(self).id == old(self).id,
            final(self).neighbors == old(self).neighbors,
            old(self).set@.is_prefix_of(final(self).set@),
            forall|x: Value|
                holds_value(final(self).set@, x) == (holds_value(old(self).set@, x) || holds_value(
                    elements@,
                    x,
                )),
    {
        let n = elements.len();
        let mut i: usize = 0;
        while i < n
            invariant
                i <= n,
                self.wf(),
                n == elements@.len(),
                self.id == old(self).id,
                self.neighbors == old(self).neighbors,
                old(self).set@.is_prefix_of(self.set@),
                forall|x: Value|
                    holds_value(self.set@, x) == (holds_value(old(self).set@, x) || holds_value(
                        elements@.subrange(0, i as int),
                        x,
                    )),
            decreases n - i,
        {
            let element = rc_clone(&elements[i]);
            self.insert(element);
            proof {
                assert forall|x: Value|
                    holds_value(self.set@, x) == (holds_value(old(self).set@, x) || holds_value(
                        elements@.subrange(0, i as int + 1),
                        x,
                    )) by {
                    if holds_value(elements@.subrange(0, i as int + 1), x) {
                        let w = choose|j: int|
                            0 <= j < i + 1 && #[trigger] deep_eq(
                                *elements@.subrange(0, i as int + 1)[j],
                                x,
                            );
                        if w < i {
                            assert(holds_value(elements@.subrange(0, i as int), x));
                        } else {
                            assert(deep_eq(*elements@[i as int], x));
                        }
                    }
                    if holds_value(elements@.subrange(0, i as int), x) {
                        let w = choose|j: int|
                            0 <= j < i && #[trigger] deep_eq(*elements@.subrange(0, i as int)[j], x);
                        assert(deep_eq(*elements@.subrange(0, i as int + 1)[w], x));
                    }
                    if deep_eq(*elements@[i as int], x) {
                        assert(deep_eq(*elements@.subrange(0, i as int + 1)[i as int], x));
                    }
                }
            }
            i = i + 1;
        }
        proof {
            assert(elements@.subrange(0, n as int) =~= elements@);
        }
    }

    /// Replicates the whole set to every neighbour.
    pub fn event(&mut self, out: &mut Outbox<SetPayload>)
        requires
            old(self).wf(),
        ensures
            *final(self) == *old(self),
            old(out).queue@.is_prefix_of(final(out).queue@),
            final(out).queue@.len() == old(out).queue@.len() + old(self).neighbors@.len(),
            forall|k: int|
                old(out).queue@.len() <= k < final(out).queue@.len() ==> {
                    let m = #[trigger] final(out).queue@[k];
                    &&& m.dst == old(self).neighbors@[k - old(out).queue@.len()]
                    &&& m.reply is None
                    &&& m.payload matches SetPayload::Replicate { elements } && elements@ == old(
                        self,
                    ).set@
                },
    {
        let n = self.neighbors.len();
        let mut i: usize = 0;
        while i < n
            invariant
                i <= n,
                self.wf(),
                *self == *old(self),
                n == self.neighbors@.len(),
                old(out).queue@.is_prefix_of(out.queue@),
                out.queue@.len() == old(out).queue@.len() + i,
                forall|k: int|
                    old(out).queue@.len() <= k < out.queue@.len() ==> {
                        let m = #[trigger] out.queue@[k];
                        &&& m.dst == self.neighbors@[k - old(out).queue@.len()]
                        &&& m.reply is None
                        &&& m.payload matches SetPayload::Replicate { elements } && elements@
                            == self.set@
                    },
            decreases n - i,
        {
            let elements = copy_set(&self.set);
            out.send(self.neighbors[i].clone(), None, SetPayload::Replicate { elements });
            i = i + 1;
        }
    }
}

/// A copy of the set: the same values, in the same order.
fn copy_set(s: &Vec<Rc<Value>>) -> (r: Vec<Rc<Value>>)
    ensures
        r@ == s@,
{
    let n = s.len();
    let mut r: Vec<Rc<Value>> = Vec::new();
    let mut i: usize = 0;
    while i < n
        invariant
            i <= n,
            n == s@.len(),
            r@ == s@.subrange(0, i as int),
        decreases n - i,
    {
        proof {
            assert(s@.subrange(0, i as int).push(s@[i as int]) =~= s@.subrange(0, i as int + 1));
        }
        r.push(rc_clone(&s[i]));
        i = i + 1;
    }
    proof {
        assert(s@.subrange(0, n as int) =~= s@);
    }
    r
}

} // verus!
