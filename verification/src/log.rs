use vstd::prelude::*;

use crate::node::{Init, Message, Outbound, Outbox};

verus! {

/// Append-only log for one key of the log workload.
///
/// Entries are `(offset, value)` pairs whose offsets are densely packed
/// positive integers starting at 1, in push order; `commited` is the
/// committed-offset bookmark set by `commit`.
pub struct Log {
    pub inner: Vec<(i32, i32)>,
    pub commited: i32,
}

impl Log {
    /// Every stored pair carries the offset equal to its position plus one.
    pub open spec fn wf(self) -> bool {
        forall|k: int| 0 <= k < self.inner@.len() ==> (#[trigger] self.inner@[k]).0 == k + 1
    }

    pub open spec fn entries(self) -> Seq<(i32, i32)> {
        self.inner@
    }

    pub open spec fn committed_offset(self) -> i32 {
        self.commited
    }

    /// Index of the first entry a poll at `offset` returns.
    pub open spec fn poll_start(self, offset: i32) -> int {
        if offset <= 1 {
            0
        } else if offset - 1 <= self.entries().len() {
            offset - 1
        } else {
            self.entries().len() as int
        }
    }

    /// Index one past the last entry a poll at `offset` returns: at most 20
    /// entries come back.
    pub open spec fn poll_end(self, offset: i32) -> int {
        if self.poll_start(offset) + 20 <= self.entries().len() {
            self.poll_start(offset) + 20
        } else {
            self.entries().len() as int
        }
    }

    /// The entries a poll at `offset` returns: the run of entries with
    /// offsets at least `offset`, capped at 20.
    pub open spec fn poll_spec(self, offset: i32) -> Seq<(i32, i32)> {
        self.entries().subrange(self.poll_start(offset), self.poll_end(offset))
    }

    /// Appends `x` under the next free offset and returns that offset.
    pub fn push(&mut self, x: i32) -> (idx: i32)
        requires
            old(self).wf(),
            old(self).entries().len() < i32::MAX,
        ensures
            final(self).wf(),
            idx == old(self).entries().len() + 1,
            final(self).entries() == old(self).entries().push((idx, x)),
            final(self).committed_offset() == old(self).committed_offset(),
    {
        let len = self.inner.len();
        let idx: i32 = if len > 0 {
            self.inner[len - 1].0 + 1
        } else {
            1
        };
        self.inner.push((idx, x));
        idx
    }

    /// Returns up to 20 entries whose offset is at least `offset`, in offset
    /// order.
    pub fn poll(&self, offset: i32) -> (r: Vec<(i32, i32)>)
        requires
            self.wf(),
        ensures
            r@ == self.poll_spec(offset),
    {
        let len = self.inner.len();
        let start: usize = if offset <= 1 {
            0
        } else if offset as usize - 1 <= len {
            offset as usize - 1
        } else {
            len
        };
        let end: usize = if len - start > 20 {
            start + 20
        } else {
            len
        };

        let mut r: Vec<(i32, i32)> = Vec::new();
        let mut i: usize = start;
        while i < end
            invariant
                start <= i <= end <= self.inner@.len(),
                r@ == self.inner@.subrange(start as int, i as int),
            decreases end - i,
        {
            r.push(self.inner[i]);
            i = i + 1;
        }
        r
    }

    /// Moves the committed-offset bookmark; the last write wins.
    pub fn commit(&mut self, offset: i32)
        ensures
            final(self).committed_offset() == offset,
            final(self).entries() == old(self).entries(),
            final(self).wf() == old(self).wf(),
    {
        self.commited = offset;
    }

    /// The committed-offset bookmark.
    pub fn commited(&self) -> (r: i32)
        ensures
            r == self.committed_offset(),
    {
        self.commited
    }
}

impl Default for Log {
    /// An empty log with no committed offset.
    fn default() -> (r: Self)
        ensures
            r.wf(),
            r.entries() == Seq::<(i32, i32)>::empty(),
            r.committed_offset() == 0,
    {
        Log { inner: Vec::new(), commited: 0 }
    }
}

/// Law: polling from the start is monotone in the log. If `b` extends `a`
/// (pushes only ever append), the entries `a` returns for a poll at offset 1
/// are a prefix of those `b` returns, and both list the values in push order
/// under offsets 1, 2, 3, ...
pub proof fn lemma_poll_prefix(a: Log, b: Log)
    requires
        a.wf(),
        b.wf(),
        a.entries().is_prefix_of(b.entries()),
    ensures
        a.poll_spec(1).is_prefix_of(b.poll_spec(1)),
        forall|k: int|
            0 <= k < a.poll_spec(1).len() ==> #[trigger] a.poll_spec(1)[k] == (
            (k + 1) as i32,
            a.entries()[k].1,
            ),
{
    assert(a.poll_spec(1) =~= a.entries().subrange(0, a.poll_end(1)));
    assert(b.poll_spec(1) =~= b.entries().subrange(0, b.poll_end(1)));
    assert(a.poll_spec(1).is_prefix_of(b.poll_spec(1))) by {
        assert(a.poll_spec(1) =~= b.poll_spec(1).subrange(0, a.poll_spec(1).len() as int));
    }
}

/// The log workload's messages. Offset maps travel as association lists.
pub enum LogPayload {
    Send { key: String, msg: i32 },
    SendOk { offset: i32 },
    Poll { offsets: Vec<(String, i32)> },
    PollOk { msgs: Vec<(String, Vec<(i32, i32)>)> },
    CommitOffsets { offsets: Vec<(String, i32)> },
    CommitOffsetsOk,
    ListCommittedOffsets { keys: Vec<String> },
    ListCommittedOffsetsOk { offsets: Vec<(String, i32)> },
}

/// Whether a log stands under the key.
pub open spec fn has_key(logs: Seq<(String, Log)>, key: Seq<char>) -> bool {
    exists|i: int| 0 <= i < logs.len() && logs[i].0@ == key
}

/// The position of the key's log; with pairwise distinct keys there is
/// exactly one.
pub open spec fn key_index(logs: Seq<(String, Log)>, key: Seq<char>) -> int {
    choose|i: int| 0 <= i < logs.len() && logs[i].0@ == key
}

/// Pairwise distinct keys.
pub open spec fn distinct_keys(logs: Seq<(String, Log)>) -> bool {
    forall|i: int, j: int| 0 <= i < j < logs.len() ==> logs[i].0@ != logs[j].0@
}

/// What a poll over many keys answers: for each requested key that has a
/// log, in request order, the key and that log's poll at the requested
/// offset; unknown keys are left out.
pub open spec fn poll_matches(
    logs: Seq<(String, Log)>,
    offsets: Seq<(String, i32)>,
    out: Seq<(String, Vec<(i32, i32)>)>,
) -> bool
    decreases offsets.len(),
{
    if offsets.len() == 0 {
        out.len() == 0
    } else if has_key(logs, offsets.last().0@) {
        &&& out.len() > 0
        &&& out.last().0 == offsets.last().0
        &&& out.last().1@ == logs[key_index(logs, offsets.last().0@)].1.poll_spec(
            offsets.last().1,
        )
        &&& poll_matches(logs, offsets.drop_last(), out.drop_last())
    } else {
        poll_matches(logs, offsets.drop_last(), out)
    }
}

/// What a committed-offsets listing answers: for each requested key that has
/// a log, in request order, the key and that log's committed offset; unknown
/// keys are left out.
pub open spec fn listing_matches(
    logs: Seq<(String, Log)>,
    keys: Seq<String>,
    out: Seq<(String, i32)>,
) -> bool
    decreases keys.len(),
{
    if keys.len() == 0 {
        out.len() == 0
    } else if has_key(logs, keys.last()@) {
        &&& out.len() > 0
        &&& out.last().0 == keys.last()
        &&& out.last().1 == logs[key_index(logs, keys.last()@)].1.committed_offset()
        &&& listing_matches(logs, keys.drop_last(), out.drop_last())
    } else {
        listing_matches(logs, keys.drop_last(), out)
    }
}

/// The committed offset a batch assigns to `key`: the last entry for the key
/// wins; `dflt` when the batch does not name it.
pub open spec fn last_commit_for(offsets: Seq<(String, i32)>, key: Seq<char>, dflt: i32) -> i32
    decreases offsets.len(),
{
    if offsets.len() == 0 {
        dflt
    } else if offsets.last().0@ == key {
        offsets.last().1
    } else {
        last_commit_for(offsets.drop_last(), key, dflt)
    }
}

/// The log workload: one append-only log per key, created on first send.
pub struct LogNode {
    pub id: String,
    pub logs: Vec<(String, Log)>,
}

impl LogNode {
    /// Keys are pairwise distinct and every log is well formed.
    pub open spec fn wf(self) -> bool {
        &&& distinct_keys(self.logs@)
        &&& (forall|i: int| 0 <= i < self.logs@.len() ==> (#[trigger] self.logs@[i]).1.wf())
    }

    /// A node with no logs yet.
    pub fn new() -> (r: Self)
        ensures
            r.wf(),
            r.logs@ == Seq::<(String, Log)>::empty(),
    {
        LogNode { id: String::new(), logs: Vec::new() }
    }

    /// Adopts this node's id.
    pub fn init(&mut self, init: Init)
        ensures
            final(self).id == init.id,
            final(self).logs == old(self).logs,
            final(self).wf() == old(self).wf(),
    {
        self.id = init.id;
    }

    /// The position of the key's log, if the key has one.
    fn find_key(&self, key: &String) -> (r: Option<usize>)
        requires
            self.wf(),
        ensures
            match r {
                Some(i) => i < self.logs@.len() && self.logs@[i as int].0@ == key@ && i as int
                    == key_index(self.logs@, key@),
                None => !has_key(self.logs@, key@),
            },
    {
        let n = self.logs.len();
        let mut i: usize = 0;
        while i < n
            invariant
                i <= n,
                self.wf(),
                n == self.logs@.len(),
                forall|j: int| 0 <= j < i ==> (#[trigger] self.logs@[j]).0@ != key@,
            decreases n - i,
        {
            if self.logs[i].0 == *key {
                proof {
                    assert(has_key(self.logs@, key@));
                    let w = key_index(self.logs@, key@);
                    assert(self.logs@[w].0@ == key@);
                    assert(w == i as int);
                }
                return Some(i);
            }
            i = i + 1;
        }
        None
    }

    /// Absorbs one request. A `send` appends under the key, creating the log
    /// on first use, and answers the assigned offset; a `poll` answers, per
    /// known requested key, up to 20 entries from the requested offset; a
    /// `commit_offsets` moves each known key's committed bookmark, the last
    /// write winning; a `list_committed_offsets` answers each known requested
    /// key's bookmark.
    pub fn message(&mut self, message: Message<LogPayload>, out: &mut Outbox<LogPayload>)
        requires
            old(self).wf(),
            !(message.body.payload is SendOk),
            !(message.body.payload is PollOk),
            !(message.body.payload is CommitOffsetsOk),
            !(message.body.payload is ListCommittedOffsetsOk),
            message.body.payload matches LogPayload::Send { key, msg } ==> (has_key(
                old(self).logs@,
                key@,
            ) ==> old(self).logs@[key_index(old(self).logs@, key@)].1.entries().len() < i32::MAX),
        ensures
            final(self).wf(),
            final(self).id == old(self).id,
            match message.body.payload {
                LogPayload::Send { key, msg } => {
                    let ki = key_index(old(self).logs@, key@);
                    let sent = if has_key(old(self).logs@, key@) {
                        old(self).logs@[ki].1.entries().len() + 1
                    } else {
                        1
                    };
                    &&& (if has_key(old(self).logs@, key@) {
                        &&& final(self).logs@.len() == old(self).logs@.len()
                        &&& (forall|i: int|
                            0 <= i < old(self).logs@.len() && i != ki
                                ==> #[trigger] final(self).logs@[i] == old(self).logs@[i])
                        &&& final(self).logs@[ki].0 == old(self).logs@[ki].0
                        &&& final(self).logs@[ki].1.entries() == old(self).logs@[ki].1.entries()
                            .push((sent as i32, msg))
                        &&& final(self).logs@[ki].1.committed_offset()
                            == old(self).logs@[ki].1.committed_offset()
                    } else {
                        &&& final(self).logs@.len() == old(self).logs@.len() + 1
                        &&& old(self).logs@.is_prefix_of(final(self).logs@)
                        &&& final(self).logs@.last().0 == key
                        &&& final(self).logs@.last().1.entries() == Seq::<(i32, i32)>::empty().push(
                            (1i32, msg),
                        )
                        &&& final(self).logs@.last().1.committed_offset() == 0
                    })
                    &&& final(out).queue@ == old(out).queue@.push(
                        Outbound {
                            dst: message.src,
                            reply: message.body.id,
                            payload: LogPayload::SendOk { offset: sent as i32 },
                        },
                    )
                },
                LogPayload::Poll { offsets } => {
                    &&& *final(self) == *old(self)
                    &&& final(out).queue@.len() == old(out).queue@.len() + 1
                    &&& old(out).queue@.is_prefix_of(final(out).queue@)
                    &&& final(out).queue@.last().dst == message.src
                    &&& final(out).queue@.last().reply == message.body.id
                    &&& final(out).queue@.last().payload matches LogPayload::PollOk { msgs }
                        && poll_matches(old(self).logs@, offsets@, msgs@)
                },
                LogPayload::CommitOffsets { offsets } => {
                    &&& final(self).logs@.len() == old(self).logs@.len()
                    &&& (forall|i: int|
                        0 <= i < old(self).logs@.len() ==> {
                            &&& (#[trigger] final(self).logs@[i]).0 == old(self).logs@[i].0
                            &&& final(self).logs@[i].1.entries() == old(self).logs@[i].1.entries()
                            &&& final(self).logs@[i].1.committed_offset() == last_commit_for(
                                offsets@,
                                old(self).logs@[i].0@,
                                old(self).logs@[i].1.committed_offset(),
                            )
                        })
                    &&& final(out).queue@ == old(out).queue@.push(
                        Outbound {
                            dst: message.src,
                            reply: message.body.id,
                            payload: LogPayload::CommitOffsetsOk,
                        },
                    )
                },
                LogPayload::ListCommittedOffsets { keys } => {
                    &&& *final(self) == *old(self)
                    &&& final(out).queue@.len() == old(out).queue@.len() + 1
                    &&& old(out).queue@.is_prefix_of(final(out).queue@)
                    &&& final(out).queue@.last().dst == message.src
                    &&& final(out).queue@.last().reply == message.body.id
                    &&& final(out).queue@.last().payload matches LogPayload::ListCommittedOffsetsOk {
                        offsets,
                    } && listing_matches(old(self).logs@, keys@, offsets@)
                },
                _ => false,
            },
    {
        let dst = message.src;
        let rply = message.body.id;

        match message.body.payload {
            LogPayload::Send { key, msg } => {
                let offset = match self.find_key(&key) {
                    Some(ki) => {
                        let mut entry = self.logs.remove(ki);
                        let offset = entry.1.push(msg);
                        self.logs.insert(ki, entry);
                        proof {
                            assert(self.logs@ =~= old(self).logs@.update(
                                ki as int,
                                self.logs@[ki as int],
                            ));
                        }
                        offset
                    },
                    None => {
                        let mut fresh = Log::default();
                        let offset = fresh.push(msg);
                        self.logs.push((key, fresh));
                        proof {
                            assert(self.logs@.drop_last() =~= old(self).logs@);
                        }
                        offset
                    },
                };
                out.send(dst, rply, LogPayload::SendOk { offset });
            },
            LogPayload::Poll { offsets } => {
                let n = offsets.len();
                let mut msgs: Vec<(String, Vec<(i32, i32)>)> = Vec::new();
                let mut i: usize = 0;
                while i < n
                    invariant
                        i <= n,
                        self.wf(),
                        *self == *old(self),
                        n == offsets@.len(),
                        poll_matches(self.logs@, offsets@.subrange(0, i as int), msgs@),
                    decreases n - i,
                {
                    proof {
                        assert(offsets@.subrange(0, i as int + 1).drop_last() =~= offsets@.subrange(
                            0,
                            i as int,
                        ));
                        assert(offsets@.subrange(0, i as int + 1).last() == offsets@[i as int]);
                    }
                    let (key, from) = (offsets[i].0.clone(), offsets[i].1);
                    let ghost mprev = msgs@;
                    match self.find_key(&key) {
                        Some(ki) => {
                            let polled = self.logs[ki].1.poll(from);
                            msgs.push((key, polled));
                            proof {
                                assert(msgs@.drop_last() =~= mprev);
                            }
                        },
                        None => {
                        },
                    }
                    i = i + 1;
                }
                proof {
                    assert(offsets@.subrange(0, n as int) =~= offsets@);
                }
                out.send(dst, rply, LogPayload::PollOk { msgs });
            },
            LogPayload::CommitOffsets { offsets } => {
                let n = offsets.len();
                let mut i: usize = 0;
                while i < n
                    invariant
                        i <= n,
                        self.wf(),
                        n == offsets@.len(),
                        self.id == old(self).id,
                        self.logs@.len() == old(self).logs@.len(),
                        forall|k: int|
                            0 <= k < old(self).logs@.len() ==> {
                                &&& (#[trigger] self.logs@[k]).0 == old(self).logs@[k].0
                                &&& self.logs@[k].1.entries() == old(self).logs@[k].1.entries()
                                &&& self.logs@[k].1.committed_offset() == last_commit_for(
                                    offsets@.subrange(0, i as int),
                                    old(self).logs@[k].0@,
                                    old(self).logs@[k].1.committed_offset(),
                                )
                            },
                    decreases n - i,
                {
                    let (key, offset) = (offsets[i].0.clone(), offsets[i].1);
                    let ghost mid = self.logs@;
                    match self.find_key(&key) {
                        Some(ki) => {
                            let mut entry = self.logs.remove(ki);
                            entry.1.commit(offset);
                            self.logs.insert(ki, entry);
                            proof {
                                assert(self.logs@ =~= mid.update(ki as int, self.logs@[ki as int]));
                            }
                        },
                        None => {
                        },
                    }
                    proof {
                        assert forall|k: int| 0 <= k < old(self).logs@.len() implies {
                            &&& (#[trigger] self.logs@[k]).0 == old(self).logs@[k].0
                            &&& self.logs@[k].1.entries() == old(self).logs@[k].1.entries()
                            &&& self.logs@[k].1.committed_offset() == last_commit_for(
                                offsets@.subrange(0, i as int + 1),
                                old(self).logs@[k].0@,
                                old(self).logs@[k].1.committed_offset(),
                            )
                        } by {
                            assert(offsets@.subrange(0, i as int + 1).drop_last()
                                =~= offsets@.subrange(0, i as int));
                            assert(offsets@.subrange(0, i as int + 1).last() == offsets@[i as int]);
                            if has_key(mid, key@) {
                                let w = key_index(mid, key@);
                                assert(mid[w].0@ == key@);
                            }
                        }
                    }
                    i = i + 1;
                }
                proof {
                    assert(offsets@.subrange(0, n as int) =~= offsets@);
                }
                out.send(dst, rply, LogPayload::CommitOffsetsOk);
            },
            LogPayload::ListCommittedOffsets { keys } => {
                let n = keys.len();
                let mut listed: Vec<(String, i32)> = Vec::new();
                let mut i: usize = 0;
                while i < n
                    invariant
                        i <= n,
                        self.wf(),
                        *self == *old(self),
                        n == keys@.len(),
                        listing_matches(self.logs@, keys@.subrange(0, i as int), listed@),
                    decreases n - i,
                {
                    proof {
                        assert(keys@.subrange(0, i as int + 1).drop_last() =~= keys@.subrange(
                            0,
                            i as int,
                        ));
                        assert(keys@.subrange(0, i as int + 1).last() == keys@[i as int]);
                    }
                    let key = keys[i].clone();
                    let ghost lprev = listed@;
                    match self.find_key(&key) {
                        Some(ki) => {
                            let c = self.logs[ki].1.commited();
                            listed.push((key, c));
                            proof {
                                assert(listed@.drop_last() =~= lprev);
                            }
                        },
                        None => {
                        },
                    }
                    i = i + 1;
                }
                proof {
                    assert(keys@.subrange(0, n as int) =~= keys@);
                }
                out.send(dst, rply, LogPayload::ListCommittedOffsetsOk { offsets: listed });
            },
            _ => {
            },
        }
    }
}

} // verus!
