//! The outbound-RPC correlation service.
//!
//! A caller sends a request envelope to a named peer and later receives
//! exactly the envelope whose `in_reply_to` matches the identifier the
//! request was stamped with. The service owns the pending-request table:
//! registering an identifier and stamping the request happen together, so a
//! reply can never arrive before its slot exists. The runtime around the
//! library keeps one single-resolution reply slot per registered identifier
//! and resolves it with the envelope this module hands back.

use vstd::prelude::*;

use crate::protocol::Message;
use crate::sender::{Output, Sender};
use crate::vset::{vec_set_contains, vec_set_remove};

verus! {

broadcast use vstd::seq_lib::group_seq_properties;

/// A request for the service: the sending node's id and the payload.
pub struct Request<P>(pub String, pub P);

/// An inbound envelope routed to the service as a candidate reply.
pub struct Response<P>(pub Message<P>);

/// The correlation state: the peer's name and the identifiers of requests
/// whose replies are still awaited.
pub struct Service {
    pub name: String,
    pub pending: Vec<usize>,
}

impl Service {
    /// The set of identifiers with an open reply slot.
    pub closed spec fn pending_ids(self) -> Set<usize> {
        self.pending@.to_set()
    }

    /// At most one table entry per identifier.
    pub closed spec fn wf(self) -> bool {
        self.pending@.no_duplicates()
    }

    /// Every registered identifier was issued by this counter, so the next
    /// identifier it assigns is fresh for the table.
    pub open spec fn consistent_with(self, sender: Sender) -> bool {
        forall|k: usize| self.pending_ids().contains(k) ==> k < sender.next()
    }

    /// Whether delivering `msg` would resolve the open slot `id`.
    pub open spec fn resolves<P>(self, msg: Message<P>, id: usize) -> bool {
        msg.body.in_reply_to == Some(id) && self.pending_ids().contains(id)
    }

    /// A service for the peer called `name`, with an empty table.
    pub fn new(name: String) -> (r: Self)
        ensures
            r.wf(),
            r.name == name,
            r.pending_ids() == Set::<usize>::empty(),
    {
        let r = Service { name, pending: Vec::new() };
        proof {
            assert(r.pending_ids() =~= Set::<usize>::empty());
        }
        r
    }

    /// Issue one request: build the envelope addressed to the peer, stamp it
    /// through the shared output path, and open a reply slot under the
    /// assigned identifier — atomically with respect to this service's
    /// state, so no reply can find the identifier assigned but unregistered.
    /// Returns the stamped envelope (for the runtime to write out) and the
    /// identifier whose slot the eventual reply will resolve.
    pub fn handle_request<P>(&mut self, sender: &mut Sender, req: Request<P>) -> (r: (
        Message<P>,
        usize,
    ))
        requires
            old(self).wf(),
            old(self).consistent_with(*old(sender)),
            old(sender).wf(),
            old(sender).next() < usize::MAX,
        ensures
            final(self).wf(),
            final(self).consistent_with(*final(sender)),
            final(sender).wf(),
            final(self).name == old(self).name,
            r.1 == old(sender).next(),
            final(sender).next() == old(sender).next() + 1,
            final(sender).issued() == old(sender).issued().push(r.1),
            !old(self).pending_ids().contains(r.1),
            final(self).pending_ids() == old(self).pending_ids().insert(r.1),
            r.0.src == req.0,
            r.0.dst == old(self).name,
            r.0.body.id == Some(r.1),
            r.0.body.in_reply_to is None,
            r.0.body.payload == req.1,
    {
        let Request(from, payload) = req;
        let message = Message::new(from, self.name.clone(), payload);
        let (stamped, id) = sender.handle(Output(message));
        proof {
            if self.pending@.contains(id) {
                assert(self.pending_ids().contains(id));
            }
        }
        self.pending.push(id);
        proof {
            old(self).pending@.lemma_push_to_set_commute(id);
            assert(self.pending@ == old(self).pending@.push(id));
            assert(self.pending@.to_set() =~= old(self).pending@.to_set().insert(id));
            assert forall|k: usize| self.pending_ids().contains(k) implies k < sender.next() by {
                if k != id {
                    assert(old(self).pending_ids().contains(k));
                }
            }
        }
        (stamped, id)
    }

    /// Deliver a candidate reply. If its `in_reply_to` names an open slot,
    /// the slot is closed and the envelope is returned for the runtime to
    /// resolve that slot with; otherwise the envelope is discarded — an
    /// unmatched reply is expected under retransmission and is not an error.
    /// Never blocks and never fails.
    pub fn handle_response<P>(&mut self, resp: Response<P>) -> (r: Option<Message<P>>)
        requires
            old(self).wf(),
        ensures
            final(self).wf(),
            final(self).name == old(self).name,
            match resp.0.body.in_reply_to {
                Some(t) => {
                    if old(self).pending_ids().contains(t) {
                        &&& r == Some(resp.0)
                        &&& final(self).pending_ids() == old(self).pending_ids().remove(t)
                    } else {
                        &&& r is None
                        &&& final(self).pending_ids() == old(self).pending_ids()
                    }
                },
                None => r is None && final(self).pending_ids() == old(self).pending_ids(),
            },
    {
        let Response(message) = resp;
        let in_reply_to = match message.body.in_reply_to {
            Some(v) => v,
            None => {
                return None;
            },
        };
        let open = vec_set_contains(&self.pending, in_reply_to);
        if open {
            vec_set_remove(&mut self.pending, in_reply_to);
            Some(message)
        } else {
            None
        }
    }
}

/// RPC round-trip: a reply built with `make_response` from the stamped
/// request — so its `in_reply_to` equals the request's assigned identifier —
/// resolves exactly the slot opened for that request, while any envelope
/// carrying a different `in_reply_to` leaves that slot untouched.
pub proof fn lemma_rpc_round_trip<P, Q>(
    service: Service,
    request: Message<P>,
    id: usize,
    reply: Message<P>,
    other: Message<Q>,
)
    requires
        service.pending_ids().contains(id),
        request.body.id == Some(id),
        reply.body.in_reply_to == request.body.id,
        other.body.in_reply_to != Some(id),
    ensures
        service.resolves(reply, id),
        !service.resolves(other, id),
{
}

} // verus!
