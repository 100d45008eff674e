use vstd::prelude::*;

use crate::node::{Message, Outbound, Outbox};

verus! {

/// A transaction micro-operation: read the list under a key, or append an
/// integer to it.
pub enum Op {
    Read { key: usize, read: Option<Vec<usize>> },
    Append { key: usize, value: usize },
}

/// The wire shape of a micro-operation: `[fn, key, value]` where `fn` is
/// `"r"` or `"append"`, and the value slot holds an integer for an append or
/// an optional list for a read.
pub struct RawOp(pub String, pub usize, pub Either<usize, Option<Vec<usize>>>);

/// One of two shapes in the wire value slot.
pub enum Either<L, R> {
    Left(L),
    Right(R),
}

impl Op {
    /// Reads a wire triple: `["r", key, null]` is a read, `["append", key,
    /// v]` an append; anything else is rejected.
    pub fn from_raw(raw: RawOp) -> (r: Option<Op>)
        ensures
            r == (if raw.0@ == "r"@ && (raw.2 matches Either::Right(x) && x is None) {
                Some(Op::Read { key: raw.1, read: None })
            } else if raw.0@ == "append"@ && raw.2 is Left {
                Some(Op::Append { key: raw.1, value: raw.2->Left_0 })
            } else {
                Option::<Op>::None
            }),
    {
        let RawOp(op, key, value) = raw;
        let rtag = str_owned("r");
        let atag = str_owned("append");
        let is_read = op == rtag;
        let is_append = op == atag;
        match value {
            Either::Right(None) => {
                if is_read {
                    Some(Op::Read { key, read: None })
                } else {
                    None
                }
            },
            Either::Left(value) => {
                if is_append {
                    Some(Op::Append { key, value })
                } else {
                    None
                }
            },
            _ => None,
        }
    }

    /// Writes the wire triple back.
    pub fn to_raw(&self) -> (r: RawOp)
        ensures
            r.0@ == (match *self {
                Op::Read { .. } => "r"@,
                Op::Append { .. } => "append"@,
            }),
            match *self {
                Op::Read { key, read } => r.1 == key && (r.2 matches Either::Right(x) && (x
                    is None <==> read is None) && (x matches Some(v2) ==> read matches Some(v)
                    && v2@ == v@)),
                Op::Append { key, value } => r.1 == key && r.2 == Either::<
                    usize,
                    Option<Vec<usize>>,
                >::Left(value),
            },
    {
        match self {
            Op::Read { key, read } => {
                let copy = match read {
                    None => None,
                    Some(v) => Some(copy_list(v)),
                };
                RawOp(str_owned("r"), *key, Either::Right(copy))
            },
            Op::Append { key, value } => RawOp(str_owned("append"), *key, Either::Left(*value)),
        }
    }
}

/// The transactional KV workload's messages.
pub enum KvPayload {
    Txn { txn: Vec<Op> },
    TxnOk { txn: Vec<Op> },
}

/// The store, mathematically: keys with their lists.
pub open spec fn lists_view(s: Seq<(usize, Vec<usize>)>) -> Seq<(usize, Seq<usize>)> {
    s.map_values(|e: (usize, Vec<usize>)| (e.0, e.1@))
}

/// Whether a list stands under the key.
pub open spec fn has_list(s: Seq<(usize, Seq<usize>)>, key: usize) -> bool {
    exists|i: int| 0 <= i < s.len() && s[i].0 == key
}

/// The position of the key's list; with pairwise distinct keys there is
/// exactly one.
pub open spec fn list_index(s: Seq<(usize, Seq<usize>)>, key: usize) -> int {
    choose|i: int| 0 <= i < s.len() && s[i].0 == key
}

/// The store after appending `value` under `key`, creating the list on first
/// use.
pub open spec fn apply_append(s: Seq<(usize, Seq<usize>)>, key: usize, value: usize) -> Seq<
    (usize, Seq<usize>),
> {
    if has_list(s, key) {
        s.update(list_index(s, key), (key, s[list_index(s, key)].1.push(value)))
    } else {
        s.push((key, seq![value]))
    }
}

/// What one micro-operation does to the store and what it reads back: a read
/// leaves the store and fills its slot with the key's list, or leaves it
/// empty for an absent key; an append extends the store and echoes itself.
pub open spec fn op_step(
    pre: Seq<(usize, Seq<usize>)>,
    op: Op,
    post: Seq<(usize, Seq<usize>)>,
    echoed: Op,
) -> bool {
    match op {
        Op::Read { key, .. } => {
            &&& post == pre
            &&& echoed matches Op::Read { key: k2, read } && k2 == key && (if has_list(pre, key) {
                read matches Some(v) && v@ == pre[list_index(pre, key)].1
            } else {
                read is None
            })
        },
        Op::Append { key, value } => {
            &&& post == apply_append(pre, key, value)
            &&& echoed == op
        },
    }
}

/// What a whole transaction does: the micro-operations are applied in order,
/// atomically, and the echoed transaction lists each operation with its read
/// slot filled.
pub open spec fn txn_rel(
    pre: Seq<(usize, Seq<usize>)>,
    ops: Seq<Op>,
    post: Seq<(usize, Seq<usize>)>,
    out: Seq<Op>,
) -> bool
    decreases ops.len(),
{
    if ops.len() == 0 {
        post == pre && out.len() == 0
    } else {
        &&& out.len() == ops.len()
        &&& match ops[0] {
            Op::Read { .. } => op_step(pre, ops[0], pre, out[0]) && txn_rel(
                pre,
                ops.skip(1),
                post,
                out.skip(1),
            ),
            Op::Append { key, value } => op_step(pre, ops[0], apply_append(pre, key, value), out[0])
                && txn_rel(apply_append(pre, key, value), ops.skip(1), post, out.skip(1)),
        }
    }
}

/// Running one more operation after a transaction extends the relation.
proof fn lemma_txn_rel_push(
    pre: Seq<(usize, Seq<usize>)>,
    ops: Seq<Op>,
    mid: Seq<(usize, Seq<usize>)>,
    out: Seq<Op>,
    op: Op,
    post: Seq<(usize, Seq<usize>)>,
    echoed: Op,
)
    requires
        txn_rel(pre, ops, mid, out),
        op_step(mid, op, post, echoed),
    ensures
        txn_rel(pre, ops.push(op), post, out.push(echoed)),
    decreases ops.len(),
{
    if ops.len() == 0 {
        assert(ops.push(op)[0] == op);
        assert(out.push(echoed)[0] == echoed);
        assert(ops.push(op).skip(1) =~= Seq::<Op>::empty());
        assert(out.push(echoed).skip(1) =~= Seq::<Op>::empty());
        match op {
            Op::Read { .. } => {
                assert(txn_rel(pre, Seq::<Op>::empty(), post, Seq::<Op>::empty()));
            },
            Op::Append { key, value } => {
                assert(txn_rel(
                    apply_append(pre, key, value),
                    Seq::<Op>::empty(),
                    post,
                    Seq::<Op>::empty(),
                ));
            },
        }
    } else {
        assert(ops.push(op).skip(1) =~= ops.skip(1).push(op));
        assert(out.push(echoed).skip(1) =~= out.skip(1).push(echoed));
        assert(ops.push(op)[0] == ops[0]);
        assert(out.push(echoed)[0] == out[0]);
        match ops[0] {
            Op::Read { .. } => {
                lemma_txn_rel_push(pre, ops.skip(1), mid, out.skip(1), op, post, echoed);
                assert(txn_rel(pre, ops.skip(1).push(op), post, out.skip(1).push(echoed)));
                assert(txn_rel(pre, ops.push(op).skip(1), post, out.push(echoed).skip(1)));
            },
            Op::Append { key, value } => {
                lemma_txn_rel_push(
                    apply_append(pre, key, value),
                    ops.skip(1),
                    mid,
                    out.skip(1),
                    op,
                    post,
                    echoed,
                );
                assert(txn_rel(
                    apply_append(pre, key, value),
                    ops.skip(1).push(op),
                    post,
                    out.skip(1).push(echoed),
                ));
                assert(txn_rel(
                    apply_append(pre, key, value),
                    ops.push(op).skip(1),
                    post,
                    out.push(echoed).skip(1),
                ));
            },
        }
    }
}

/// The transactional KV workload: integer keys with integer lists, each
/// inbound transaction applied atomically.
pub struct KvNode {
    pub lists: Vec<(usize, Vec<usize>)>,
}

impl KvNode {
    /// Keys are pairwise distinct.
    pub open spec fn wf(self) -> bool {
        forall|i: int, j: int|
            0 <= i < j < self.lists@.len() ==> (#[trigger] self.lists@[i]).0 != (
            #[trigger] self.lists@[j]).0
    }

    /// An empty store.
    pub fn new() -> (r: Self)
        ensures
            r.wf(),
            r.lists@ == Seq::<(usize, Vec<usize>)>::empty(),
    {
        KvNode { lists: Vec::new() }
    }

    /// The position of the key's list, if the key has one.
    fn find_list(&self, key: usize) -> (r: Option<usize>)
        requires
            self.wf(),
        ensures
            match r {
                Some(i) => i < self.lists@.len() && self.lists@[i as int].0 == key && has_list(
                    lists_view(self.lists@),
                    key,
                ) && i as int == list_index(lists_view(self.lists@), key),
                None => !has_list(lists_view(self.lists@), key),
            },
    {
        let n = self.lists.len();
        let mut i: usize = 0;
        while i < n
            invariant
                i <= n,
                self.wf(),
                n == self.lists@.len(),
                forall|j: int| 0 <= j < i ==> (#[trigger] self.lists@[j]).0 != key,
            decreases n - i,
        {
            if self.lists[i].0 == key {
                proof {
                    assert(lists_view(self.lists@)[i as int].0 == key);
                    assert(has_list(lists_view(self.lists@), key));
                    let w = list_index(lists_view(self.lists@), key);
                    assert(lists_view(self.lists@)[w].0 == key);
                    assert(w == i as int);
                }
                return Some(i);
            }
            i = i + 1;
        }
        assert forall|j: int|
            0 <= j < lists_view(self.lists@).len() implies #[trigger] lists_view(
            self.lists@,
        )[j].0 != key by {
            assert(self.lists@[j].0 != key);
        }
        None
    }

    /// Applies one transaction atomically and echoes it back with the read
    /// slots filled, as `txn_rel` says.
    pub fn message(&mut self, message: Message<KvPayload>, out: &mut Outbox<KvPayload>)
        requires
            old(self).wf(),
            message.body.payload is Txn,
        ensures
            final(self).wf(),
            message.body.payload matches KvPayload::Txn { txn } ==> {
                &&& final(out).queue@.len() == old(out).queue@.len() + 1
                &&& old(out).queue@.is_prefix_of(final(out).queue@)
                &&& final(out).queue@.last().dst == message.src
                &&& final(out).queue@.last().reply == message.body.id
                &&& final(out).queue@.last().payload matches KvPayload::TxnOk { txn: echoed }
                    && txn_rel(
                    lists_view(old(self).lists@),
                    txn@,
                    lists_view(final(self).lists@),
                    echoed@,
                )
            },
    {
        let dst = message.src;
        let reply = message.body.id;

        match message.body.payload {
            KvPayload::Txn { txn } => {
                let n = txn.len();
                let mut echoed: Vec<Op> = Vec::new();
                let mut i: usize = 0;
                while i < n
                    invariant
                        i <= n,
                        self.wf(),
                        n == txn@.len(),
                        echoed@.len() == i,
                        txn_rel(
                            lists_view(old(self).lists@),
                            txn@.subrange(0, i as int),
                            lists_view(self.lists@),
                            echoed@,
                        ),
                    decreases n - i,
                {
                    let ghost mid = lists_view(self.lists@);
                    let ghost outs = echoed@;
                    let step: Op = match &txn[i] {
                        Op::Read { key, .. } => {
                            let read = match self.find_list(*key) {
                                Some(li) => Some(copy_list(&self.lists[li].1)),
                                None => None,
                            };
                            Op::Read { key: *key, read }
                        },
                        Op::Append { key, value } => {
                            let ghost vprev = self.lists@;
                            match self.find_list(*key) {
                                Some(li) => {
                                    let mut entry = self.lists.remove(li);
                                    entry.1.push(*value);
                                    self.lists.insert(li, entry);
                                    proof {
                                        assert(self.lists@ =~= vprev.update(
                                            li as int,
                                            self.lists@[li as int],
                                        ));
                                        assert(self.lists@[li as int].0 == vprev[li as int].0);
                                        assert(lists_view(self.lists@) =~= apply_append(
                                            mid,
                                            *key,
                                            *value,
                                        ));
                                    }
                                },
                                None => {
                                    let mut fresh: Vec<usize> = Vec::new();
                                    fresh.push(*value);
                                    self.lists.push((*key, fresh));
                                    proof {
                                        assert(fresh@ =~= seq![*value]);
                                        assert(self.lists@.drop_last() =~= vprev);
                                        assert forall|a: int|
                                            0 <= a < vprev.len() implies (
                                        #[trigger] vprev[a]).0 != *key by {
                                            assert(lists_view(vprev)[a].0 == vprev[a].0);
                                        }
                                        assert(lists_view(self.lists@) =~= apply_append(
                                            mid,
                                            *key,
                                            *value,
                                        ));
                                    }
                                },
                            }
                            Op::Append { key: *key, value: *value }
                        },
                    };
                    echoed.push(step);
                    proof {
                        assert(op_step(mid, txn@[i as int], lists_view(self.lists@), step));
                        lemma_txn_rel_push(
                            lists_view(old(self).lists@),
                            txn@.subrange(0, i as int),
                            mid,
                            outs,
                            txn@[i as int],
                            lists_view(self.lists@),
                            step,
                        );
                        assert(txn@.subrange(0, i as int).push(txn@[i as int]) =~= txn@.subrange(
                            0,
                            i as int + 1,
                        ));
                        assert(echoed@ =~= outs.push(step));
                    }
                    i = i + 1;
                }
                proof {
                    assert(txn@.subrange(0, n as int) =~= txn@);
                }
                out.send(dst, reply, KvPayload::TxnOk { txn: echoed });
            },
            _ => {
            },
        }
    }
}

/// An owned copy of a string slice.
fn str_owned(s: &str) -> (r: String)
    ensures
        r@ == s@,
{
    let mut r = String::new();
    r.append(s);
    r
}

/// A copy of a list of integers, with the same elements.
fn copy_list(v: &Vec<usize>) -> (r: Vec<usize>)
    ensures
        r@ == v@,
{
    let mut r: Vec<usize> = Vec::new();
    let mut i: usize = 0;
    while i < v.len()
        invariant
            i <= v@.len(),
            r@ == v@.subrange(0, i as int),
        decreases v@.len() - i,
    {
        proof {
            assert(v@.subrange(0, i as int).push(v@[i as int]) =~= v@.subrange(0, i as int + 1));
        }
        r.push(v[i]);
        i = i + 1;
    }
    proof {
        assert(r@ =~= v@);
    }
    r
}

} // verus!
