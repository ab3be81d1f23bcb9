//! The output path's identifier counter.
//!
//! Every outbound envelope is stamped, at the moment of transmission, with
//! the next value of a single per-process counter that starts at zero and
//! never reuses a value. The surrounding runtime serialises calls to
//! `handle`, writes the stamped envelope to the output stream, and flushes;
//! only the stamping and the counter live here.

use vstd::prelude::*;

use crate::protocol::{Body, Message};

verus! {

/// An envelope handed to the output path for stamping and transmission.
pub struct Output<P>(pub Message<P>);

/// The owner of the output-identifier space: a strictly increasing counter,
/// together with the (ghost) sequence of identifiers issued so far.
pub struct Sender {
    next_id: usize,
    issued: Ghost<Seq<usize>>,
}

impl Sender {
    /// The identifier the next outbound envelope will receive.
    pub closed spec fn next(self) -> usize {
        self.next_id
    }

    /// All identifiers issued so far, in issue order.
    pub closed spec fn issued(self) -> Seq<usize> {
        self.issued@
    }

    /// The counter has issued exactly `0, 1, ..., next() - 1`, in order.
    pub closed spec fn wf(self) -> bool {
        &&& self.issued@.len() == self.next_id
        &&& forall|i: int| 0 <= i < self.issued@.len() ==> self.issued@[i] == i
    }

    /// A fresh counter: nothing issued yet.
    pub fn new() -> (r: Self)
        ensures
            r.wf(),
            r.next() == 0,
            r.issued() == Seq::<usize>::empty(),
    {
        Sender { next_id: 0, issued: Ghost(Seq::empty()) }
    }

    /// The next identifier, for callers that must check headroom before
    /// stamping.
    pub fn peek_next(&self) -> (r: usize)
        ensures
            r == self.next(),
    {
        self.next_id
    }

    /// Stamp one outbound envelope with the next identifier and advance the
    /// counter. Returns the stamped envelope and its identifier; the caller
    /// writes the envelope out as one atomic unit.
    pub fn handle<P>(&mut self, out: Output<P>) -> (r: (Message<P>, usize))
        requires
            old(self).wf(),
            old(self).next() < usize::MAX,
        ensures
            final(self).wf(),
            r.1 == old(self).next(),
            final(self).next() == old(self).next() + 1,
            final(self).issued() == old(self).issued().push(r.1),
            r.0.src == out.0.src,
            r.0.dst == out.0.dst,
            r.0.body.id == Some(r.1),
            r.0.body.in_reply_to == out.0.body.in_reply_to,
            r.0.body.payload == out.0.body.payload,
    {
        let Output(message) = out;
        let id = self.next_id;
        self.next_id = self.next_id + 1;
        proof {
            self.issued@ = self.issued@.push(id);
        }
        let stamped = Message {
            src: message.src,
            dst: message.dst,
            body: Body { id: Some(id), in_reply_to: message.body.in_reply_to, payload: message.body.payload },
        };
        (stamped, id)
    }
}

/// Identifier uniqueness: for any well-formed counter that has issued `n`
/// identifiers, those identifiers are exactly `0 .. n-1`, with no repeats,
/// regardless of the order in which concurrent handlers handed envelopes to
/// the output path.
pub proof fn lemma_output_ids_unique(s: Sender)
    requires
        s.wf(),
    ensures
        s.issued().no_duplicates(),
        s.issued().len() == s.next(),
        forall|k: usize| s.issued().contains(k) <==> k < s.next(),
{
    assert forall|k: usize| s.issued().contains(k) <==> k < s.next() by {
        if k < s.next() {
            assert(s.issued()[k as int] == k);
            assert(s.issued().contains(k));
        }
    }
}

} // verus!
