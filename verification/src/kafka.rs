//! The single-node commit log.
//!
//! Per key the node keeps an append-only queue: each `send` appends the
//! message at the next offset (offsets start at 1 and never repeat within a
//! key), `poll` returns each requested key's messages from a given offset
//! on, and committed offsets are stored per key for `list_committed_offsets`.
//! The whole behaviour is a pure state machine over the queue table; its
//! contracts are stated against `QueueRow`, the mathematical view of one
//! queue.

use vstd::prelude::*;

use crate::broadcast::is_reply_to;
use crate::protocol::{InitPayload, Message};

verus! {

broadcast use vstd::seq_lib::group_seq_properties;

/// The wire payloads of the commit-log behaviour.
pub enum KafkaPayload {
    Init(InitPayload),
    InitOk,
    Send { key: String, msg: usize },
    SendOk { offset: usize },
    Poll { offsets: Vec<(String, usize)> },
    PollOk { msgs: Vec<(String, Vec<(usize, usize)>)> },
    CommitOffsets { offsets: Vec<(String, usize)> },
    CommitOffsetsOk,
    ListCommittedOffsets { keys: Vec<String> },
    ListCommittedOffsetsOk { offsets: Vec<(String, usize)> },
    Unknown,
}

/// One key's queue: the last offset handed out, the committed offset, and
/// the messages as (offset, value) pairs in append order.
pub struct QueueEntry {
    pub key: String,
    pub last_offset: usize,
    pub committed: usize,
    pub msgs: Vec<(usize, usize)>,
}

/// The mathematical view of one queue.
#[verifier::ext_equal]
pub struct QueueRow {
    pub key: Seq<char>,
    pub last: usize,
    pub committed: usize,
    pub msgs: Seq<(usize, usize)>,
}

impl View for QueueEntry {
    type V = QueueRow;

    open spec fn view(&self) -> QueueRow {
        QueueRow {
            key: self.key@,
            last: self.last_offset,
            committed: self.committed,
            msgs: self.msgs@,
        }
    }
}

/// Append `m` to the queue of `key` at the next offset, creating the queue
/// if the key is new; yields the new table and the assigned offset.
pub open spec fn send_rows(rows: Seq<QueueRow>, key: Seq<char>, m: usize) -> (Seq<QueueRow>, usize)
    decreases rows.len(),
{
    if rows.len() == 0 {
        (seq![QueueRow { key: key, last: 1, committed: 0, msgs: seq![(1usize, m)] }], 1usize)
    } else if rows[0].key == key {
        let off = ((rows[0].last + 1) as usize);
        (
            seq![QueueRow { last: off, msgs: rows[0].msgs.push((off, m)), ..rows[0] }]
                + rows.drop_first(),
            off,
        )
    } else {
        let r = send_rows(rows.drop_first(), key, m);
        (seq![rows[0]] + r.0, r.1)
    }
}

/// Record `off` as the committed offset of `key`, creating an otherwise
/// empty queue if the key is new.
pub open spec fn commit_row(rows: Seq<QueueRow>, key: Seq<char>, off: usize) -> Seq<QueueRow>
    decreases rows.len(),
{
    if rows.len() == 0 {
        seq![QueueRow { key: key, last: 0, committed: off, msgs: Seq::empty() }]
    } else if rows[0].key == key {
        seq![QueueRow { committed: off, ..rows[0] }] + rows.drop_first()
    } else {
        seq![rows[0]] + commit_row(rows.drop_first(), key, off)
    }
}

/// Record every listed commit, first to last; a later entry for the same
/// key overrides an earlier one.
pub open spec fn commit_rows(rows: Seq<QueueRow>, offsets: Seq<(Seq<char>, usize)>) -> Seq<QueueRow>
    decreases offsets.len(),
{
    if offsets.len() == 0 {
        rows
    } else {
        commit_rows(commit_row(rows, offsets[0].0, offsets[0].1), offsets.drop_first())
    }
}

/// The messages of the queue of `key`; none if the key is unknown.
pub open spec fn row_msgs(rows: Seq<QueueRow>, key: Seq<char>) -> Seq<(usize, usize)>
    decreases rows.len(),
{
    if rows.len() == 0 {
        Seq::empty()
    } else if rows[0].key == key {
        rows[0].msgs
    } else {
        row_msgs(rows.drop_first(), key)
    }
}

/// The committed offset of `key`; zero if the key is unknown.
pub open spec fn committed_of(rows: Seq<QueueRow>, key: Seq<char>) -> usize
    decreases rows.len(),
{
    if rows.len() == 0 {
        0
    } else if rows[0].key == key {
        rows[0].committed
    } else {
        committed_of(rows.drop_first(), key)
    }
}

/// Whether appending under `key` has identifier headroom: the queue the key
/// would reach — the first matching row, or a fresh one — can take one more
/// offset.
pub open spec fn send_headroom(rows: Seq<QueueRow>, key: Seq<char>) -> bool
    decreases rows.len(),
{
    if rows.len() == 0 {
        true
    } else if rows[0].key == key {
        rows[0].last < usize::MAX
    } else {
        send_headroom(rows.drop_first(), key)
    }
}

/// Headroom means the first matching row is below the maximum.
proof fn lemma_send_headroom_at(rows: Seq<QueueRow>, key: Seq<char>, i: int)
    requires
        send_headroom(rows, key),
        0 <= i < rows.len(),
        rows[i].key == key,
        forall|j: int| 0 <= j < i ==> (#[trigger] rows[j]).key != key,
    ensures
        rows[i].last < usize::MAX,
    decreases i,
{
    if i > 0 {
        let rest = rows.drop_first();
        assert(rest[i - 1] == rows[i]);
        assert forall|j: int| 0 <= j < i - 1 implies (#[trigger] rest[j]).key != key by {
            assert(rest[j] == rows[j + 1]);
        }
        lemma_send_headroom_at(rest, key, i - 1);
    }
}

/// The messages at offset `off` or later, in stored order.
pub open spec fn msgs_from(ms: Seq<(usize, usize)>, off: usize) -> Seq<(usize, usize)>
    decreases ms.len(),
{
    if ms.len() == 0 {
        Seq::empty()
    } else if ms.last().0 >= off {
        msgs_from(ms.drop_last(), off).push(ms.last())
    } else {
        msgs_from(ms.drop_last(), off)
    }
}

/// `send_rows` on a table whose first match for `key` is at `i`: only that
/// row changes, and the assigned offset follows its `last`.
proof fn lemma_send_rows_at(rows: Seq<QueueRow>, key: Seq<char>, m: usize, i: int)
    requires
        0 <= i < rows.len(),
        rows[i].key == key,
        forall|j: int| 0 <= j < i ==> (#[trigger] rows[j]).key != key,
    ensures
        send_rows(rows, key, m).1 == ((rows[i].last + 1) as usize),
        send_rows(rows, key, m).0 == rows.update(
            i,
            QueueRow {
                last: ((rows[i].last + 1) as usize),
                msgs: rows[i].msgs.push((((rows[i].last + 1) as usize), m)),
                ..rows[i]
            },
        ),
    decreases i,
{
    let updated = QueueRow {
        last: ((rows[i].last + 1) as usize),
        msgs: rows[i].msgs.push((((rows[i].last + 1) as usize), m)),
        ..rows[i]
    };
    if i == 0 {
        assert(send_rows(rows, key, m).0 =~= rows.update(i, updated));
    } else {
        let rest = rows.drop_first();
        assert(rest[i - 1] == rows[i]);
        assert forall|j: int| 0 <= j < i - 1 implies (#[trigger] rest[j]).key != key by {
            assert(rest[j] == rows[j + 1]);
        }
        lemma_send_rows_at(rest, key, m, i - 1);
        assert(send_rows(rows, key, m).0 =~= rows.update(i, updated));
    }
}

/// `send_rows` on a table without the key appends a fresh queue.
proof fn lemma_send_rows_missing(rows: Seq<QueueRow>, key: Seq<char>, m: usize)
    requires
        forall|j: int| 0 <= j < rows.len() ==> (#[trigger] rows[j]).key != key,
    ensures
        send_rows(rows, key, m).1 == 1,
        send_rows(rows, key, m).0 == rows.push(
            QueueRow { key: key, last: 1, committed: 0, msgs: seq![(1usize, m)] },
        ),
    decreases rows.len(),
{
    if rows.len() == 0 {
        assert(send_rows(rows, key, m).0 =~= rows.push(
            QueueRow { key: key, last: 1, committed: 0, msgs: seq![(1usize, m)] },
        ));
    } else {
        let rest = rows.drop_first();
        assert forall|j: int| 0 <= j < rest.len() implies (#[trigger] rest[j]).key != key by {
            assert(rest[j] == rows[j + 1]);
        }
        lemma_send_rows_missing(rest, key, m);
        assert(send_rows(rows, key, m).0 =~= rows.push(
            QueueRow { key: key, last: 1, committed: 0, msgs: seq![(1usize, m)] },
        ));
    }
}

/// `commit_row` on a table whose first match for `key` is at `i`.
proof fn lemma_commit_row_at(rows: Seq<QueueRow>, key: Seq<char>, off: usize, i: int)
    requires
        0 <= i < rows.len(),
        rows[i].key == key,
        forall|j: int| 0 <= j < i ==> (#[trigger] rows[j]).key != key,
    ensures
        commit_row(rows, key, off) == rows.update(i, QueueRow { committed: off, ..rows[i] }),
    decreases i,
{
    if i == 0 {
        assert(commit_row(rows, key, off) =~= rows.update(
            i,
            QueueRow { committed: off, ..rows[i] },
        ));
    } else {
        let rest = rows.drop_first();
        assert(rest[i - 1] == rows[i]);
        assert forall|j: int| 0 <= j < i - 1 implies (#[trigger] rest[j]).key != key by {
            assert(rest[j] == rows[j + 1]);
        }
        lemma_commit_row_at(rest, key, off, i - 1);
        assert(commit_row(rows, key, off) =~= rows.update(
            i,
            QueueRow { committed: off, ..rows[i] },
        ));
    }
}

/// `commit_row` on a table without the key appends a fresh queue holding
/// only the committed offset.
proof fn lemma_commit_row_missing(rows: Seq<QueueRow>, key: Seq<char>, off: usize)
    requires
        forall|j: int| 0 <= j < rows.len() ==> (#[trigger] rows[j]).key != key,
    ensures
        commit_row(rows, key, off) == rows.push(
            QueueRow { key: key, last: 0, committed: off, msgs: Seq::empty() },
        ),
    decreases rows.len(),
{
    if rows.len() == 0 {
        assert(commit_row(rows, key, off) =~= rows.push(
            QueueRow { key: key, last: 0, committed: off, msgs: Seq::empty() },
        ));
    } else {
        let rest = rows.drop_first();
        assert forall|j: int| 0 <= j < rest.len() implies (#[trigger] rest[j]).key != key by {
            assert(rest[j] == rows[j + 1]);
        }
        lemma_commit_row_missing(rest, key, off);
        assert(commit_row(rows, key, off) =~= rows.push(
            QueueRow { key: key, last: 0, committed: off, msgs: Seq::empty() },
        ));
    }
}

/// The queue found by scanning to the first match at `i` carries the
/// messages and committed offset the lookup functions name.
proof fn lemma_row_lookup_at(rows: Seq<QueueRow>, key: Seq<char>, i: int)
    requires
        0 <= i < rows.len(),
        rows[i].key == key,
        forall|j: int| 0 <= j < i ==> (#[trigger] rows[j]).key != key,
    ensures
        row_msgs(rows, key) == rows[i].msgs,
        committed_of(rows, key) == rows[i].committed,
    decreases i,
{
    if i > 0 {
        let rest = rows.drop_first();
        assert(rest[i - 1] == rows[i]);
        assert forall|j: int| 0 <= j < i - 1 implies (#[trigger] rest[j]).key != key by {
            assert(rest[j] == rows[j + 1]);
        }
        lemma_row_lookup_at(rest, key, i - 1);
    }
}

/// An unknown key has no messages and a zero committed offset.
proof fn lemma_row_lookup_missing(rows: Seq<QueueRow>, key: Seq<char>)
    requires
        forall|j: int| 0 <= j < rows.len() ==> (#[trigger] rows[j]).key != key,
    ensures
        row_msgs(rows, key) == Seq::<(usize, usize)>::empty(),
        committed_of(rows, key) == 0,
    decreases rows.len(),
{
    if rows.len() > 0 {
        let rest = rows.drop_first();
        assert forall|j: int| 0 <= j < rest.len() implies (#[trigger] rest[j]).key != key by {
            assert(rest[j] == rows[j + 1]);
        }
        lemma_row_lookup_missing(rest, key);
    }
}

/// The node state: one queue per key.
pub struct SingleNodeKafkaNode {
    pub queues: Vec<QueueEntry>,
}

impl SingleNodeKafkaNode {
    /// The table of queues, as mathematical rows.
    pub open spec fn rows(self) -> Seq<QueueRow> {
        self.queues@.map_values(|q: QueueEntry| q@)
    }

    /// An empty commit log.
    pub fn new() -> (r: Self)
        ensures
            r.rows() == Seq::<QueueRow>::empty(),
    {
        let r = SingleNodeKafkaNode { queues: Vec::new() };
        proof {
            assert(r.rows() =~= Seq::<QueueRow>::empty());
        }
        r
    }

    /// Act on one inbound envelope: append, poll, commit or list, each
    /// answered; replies and unknown payloads are no-ops.
    pub fn handle(&mut self, message: Message<KafkaPayload>) -> (r: Option<Message<KafkaPayload>>)
        requires
            message.body.payload matches KafkaPayload::Send { key, .. } ==> send_headroom(
                old(self).rows(),
                key@,
            ),
        ensures
            match message.body.payload {
                KafkaPayload::Init(_) => *final(self) == *old(self) && (r matches Some(resp)
                    && is_reply_to(resp, message) && resp.body.payload is InitOk),
                KafkaPayload::Send { key, msg } => {
                    &&& final(self).rows() == send_rows(old(self).rows(), key@, msg).0
                    &&& (r matches Some(resp) && is_reply_to(resp, message)
                        && resp.body.payload == (KafkaPayload::SendOk {
                            offset: send_rows(old(self).rows(), key@, msg).1,
                        }))
                },
                KafkaPayload::Poll { offsets } => {
                    &&& *final(self) == *old(self)
                    &&& (r matches Some(resp) && is_reply_to(resp, message)
                        && (resp.body.payload matches KafkaPayload::PollOk { msgs } && {
                        &&& msgs@.len() == offsets@.len()
                        &&& forall|j: int| 0 <= j < offsets@.len() ==> {
                            &&& (#[trigger] msgs@[j]).0@ == offsets@[j].0@
                            &&& msgs@[j].1@ == msgs_from(
                                row_msgs(old(self).rows(), offsets@[j].0@),
                                offsets@[j].1,
                            )
                        }
                    }))
                },
                KafkaPayload::CommitOffsets { offsets } => {
                    &&& final(self).rows() == commit_rows(
                        old(self).rows(),
                        offsets@.map_values(|p: (String, usize)| (p.0@, p.1)),
                    )
                    &&& (r matches Some(resp) && is_reply_to(resp, message)
                        && resp.body.payload is CommitOffsetsOk)
                },
                KafkaPayload::ListCommittedOffsets { keys } => {
                    &&& *final(self) == *old(self)
                    &&& (r matches Some(resp) && is_reply_to(resp, message)
                        && (resp.body.payload matches KafkaPayload::ListCommittedOffsetsOk {
                            offsets: out,
                        } && {
                        &&& out@.len() == keys@.len()
                        &&& forall|j: int| 0 <= j < keys@.len() ==> {
                            &&& (#[trigger] out@[j]).0@ == keys@[j]@
                            &&& out@[j].1 == committed_of(old(self).rows(), keys@[j]@)
                        }
                    }))
                },
                _ => *final(self) == *old(self) && r is None,
            },
    {
        let reply: Option<KafkaPayload> = match &message.body.payload {
            KafkaPayload::Init(_) => Some(KafkaPayload::InitOk),
            KafkaPayload::Send { key, msg } => {
                let qi = self.find_queue(key);
                let offset: usize;
                if qi < self.queues.len() {
                    proof {
                        lemma_send_headroom_at(self.rows(), key@, qi as int);
                    }
                    let entry = &mut self.queues[qi];
                    entry.last_offset = entry.last_offset + 1;
                    offset = entry.last_offset;
                    entry.msgs.push((offset, *msg));
                    proof {
                        lemma_send_rows_at(old(self).rows(), key@, *msg, qi as int);
                        assert(self.rows() =~= old(self).rows().update(
                            qi as int,
                            QueueRow {
                                last: ((old(self).rows()[qi as int].last + 1) as usize),
                                msgs: old(self).rows()[qi as int].msgs.push(
                                    (((old(self).rows()[qi as int].last + 1) as usize), *msg),
                                ),
                                ..old(self).rows()[qi as int]
                            },
                        ));
                    }
                } else {
                    let mut ms: Vec<(usize, usize)> = Vec::new();
                    ms.push((1, *msg));
                    self.queues.push(
                        QueueEntry { key: key.clone(), last_offset: 1, committed: 0, msgs: ms },
                    );
                    offset = 1;
                    proof {
                        lemma_send_rows_missing(old(self).rows(), key@, *msg);
                        assert(self.queues@.last().key@ == key@);
                        assert(self.queues@.last().msgs@ =~= seq![(1usize, *msg)]);
                        assert(self.rows() =~= old(self).rows().push(
                            QueueRow { key: key@, last: 1, committed: 0, msgs: seq![(1usize, *msg)] },
                        ));
                    }
                }
                Some(KafkaPayload::SendOk { offset })
            },
            KafkaPayload::Poll { offsets } => {
                let mut out: Vec<(String, Vec<(usize, usize)>)> = Vec::new();
                let mut i: usize = 0;
                while i < offsets.len()
                    invariant
                        0 <= i <= offsets@.len(),
                        out@.len() == i,
                        forall|j: int| 0 <= j < i ==> {
                            &&& (#[trigger] out@[j]).0@ == offsets@[j].0@
                            &&& out@[j].1@ == msgs_from(
                                row_msgs(self.rows(), offsets@[j].0@),
                                offsets@[j].1,
                            )
                        },
                    decreases offsets@.len() - i,
                {
                    let off = offsets[i].1;
                    let qi = self.find_queue(&offsets[i].0);
                    let mut filtered: Vec<(usize, usize)> = Vec::new();
                    if qi < self.queues.len() {
                        proof {
                            lemma_row_lookup_at(self.rows(), offsets@[i as int].0@, qi as int);
                        }
                        let ghost ms = self.queues@[qi as int].msgs@;
                        proof {
                            assert(filtered@ =~= msgs_from(ms.take(0), off));
                        }
                        let mut k: usize = 0;
                        while k < self.queues[qi].msgs.len()
                            invariant
                                0 <= k <= ms.len(),
                                qi < self.queues@.len(),
                                ms == self.queues@[qi as int].msgs@,
                                filtered@ == msgs_from(ms.take(k as int), off),
                            decreases ms.len() - k,
                        {
                            proof {
                                assert(ms.take(k + 1).drop_last() =~= ms.take(k as int));
                                assert(ms.take(k + 1).last() == ms[k as int]);
                            }
                            let pair = self.queues[qi].msgs[k];
                            if pair.0 >= off {
                                filtered.push(pair);
                            }
                            k += 1;
                        }
                        proof {
                            assert(ms.take(ms.len() as int) =~= ms);
                        }
                    } else {
                        proof {
                            lemma_row_lookup_missing(self.rows(), offsets@[i as int].0@);
                        }
                    }
                    out.push((offsets[i].0.clone(), filtered));
                    proof {
                        assert(out@.last().0@ == offsets@[i as int].0@);
                    }
                    i += 1;
                }
                Some(KafkaPayload::PollOk { msgs: out })
            },
            KafkaPayload::CommitOffsets { offsets } => {
                let ghost ov = offsets@.map_values(|p: (String, usize)| (p.0@, p.1));
                let mut i: usize = 0;
                while i < offsets.len()
                    invariant
                        0 <= i <= offsets@.len(),
                        ov == offsets@.map_values(|p: (String, usize)| (p.0@, p.1)),
                        commit_rows(self.rows(), ov.skip(i as int)) == commit_rows(
                            old(self).rows(),
                            ov,
                        ),
                    decreases offsets@.len() - i,
                {
                    let ghost pre = self.rows();
                    let off = offsets[i].1;
                    let qi = self.find_queue(&offsets[i].0);
                    if qi < self.queues.len() {
                        let entry = &mut self.queues[qi];
                        entry.committed = off;
                        proof {
                            lemma_commit_row_at(pre, ov[i as int].0, off, qi as int);
                            assert(self.rows() =~= pre.update(
                                qi as int,
                                QueueRow { committed: off, ..pre[qi as int] },
                            ));
                        }
                    } else {
                        self.queues.push(
                            QueueEntry {
                                key: offsets[i].0.clone(),
                                last_offset: 0,
                                committed: off,
                                msgs: Vec::new(),
                            },
                        );
                        proof {
                            lemma_commit_row_missing(pre, ov[i as int].0, off);
                            assert(self.queues@.last().key@ == ov[i as int].0);
                            assert(self.queues@.last().msgs@ =~= Seq::<(usize, usize)>::empty());
                            assert(self.rows() =~= pre.push(
                                QueueRow {
                                    key: ov[i as int].0,
                                    last: 0,
                                    committed: off,
                                    msgs: Seq::empty(),
                                },
                            ));
                        }
                    }
                    proof {
                        assert(ov.skip(i as int)[0] == ov[i as int]);
                        assert(ov.skip(i as int).drop_first() =~= ov.skip(i + 1));
                        assert(commit_rows(pre, ov.skip(i as int)) == commit_rows(
                            self.rows(),
                            ov.skip(i + 1),
                        ));
                    }
                    i += 1;
                }
                proof {
                    assert(ov.skip(offsets@.len() as int) =~= Seq::<(Seq<char>, usize)>::empty());
                }
                Some(KafkaPayload::CommitOffsetsOk)
            },
            KafkaPayload::ListCommittedOffsets { keys } => {
                let mut out: Vec<(String, usize)> = Vec::new();
                let mut i: usize = 0;
                while i < keys.len()
                    invariant
                        0 <= i <= keys@.len(),
                        out@.len() == i,
                        forall|j: int| 0 <= j < i ==> {
                            &&& (#[trigger] out@[j]).0@ == keys@[j]@
                            &&& out@[j].1 == committed_of(self.rows(), keys@[j]@)
                        },
                    decreases keys@.len() - i,
                {
                    let qi = self.find_queue(&keys[i]);
                    let committed: usize;
                    if qi < self.queues.len() {
                        proof {
                            lemma_row_lookup_at(self.rows(), keys@[i as int]@, qi as int);
                        }
                        committed = self.queues[qi].committed;
                    } else {
                        proof {
                            lemma_row_lookup_missing(self.rows(), keys@[i as int]@);
                        }
                        committed = 0;
                    }
                    out.push((keys[i].clone(), committed));
                    proof {
                        assert(out@.last().0@ == keys@[i as int]@);
                    }
                    i += 1;
                }
                Some(KafkaPayload::ListCommittedOffsetsOk { offsets: out })
            },
            KafkaPayload::InitOk | KafkaPayload::SendOk { .. } | KafkaPayload::PollOk { .. }
            | KafkaPayload::CommitOffsetsOk | KafkaPayload::ListCommittedOffsetsOk { .. }
            | KafkaPayload::Unknown => None,
        };
        match reply {
            Some(payload) => Some(message.make_response(payload)),
            None => None,
        }
    }

    /// The index of the queue for `key`, or the table length if the key is
    /// unknown; earlier rows do not match.
    fn find_queue(&self, key: &String) -> (i: usize)
        ensures
            0 <= i <= self.queues@.len(),
            i < self.queues@.len() ==> self.rows()[i as int].key == key@,
            forall|j: int| 0 <= j < i ==> (#[trigger] self.rows()[j]).key != key@,
    {
        let mut i: usize = 0;
        while i < self.queues.len()
            invariant
                0 <= i <= self.queues@.len(),
                forall|j: int| 0 <= j < i ==> (#[trigger] self.queues@[j]).key@ != key@,
            decreases self.queues@.len() - i,
        {
            if self.queues[i].key.eq(key) {
                return i;
            }
            i += 1;
        }
        i
    }
}

} // verus!
