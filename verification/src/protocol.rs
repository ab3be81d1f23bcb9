//! The protocol envelope: the wire data model shared by every node, and the
//! sanctioned ways of building requests and replies.
//!
//! An envelope carries a source node id, a destination node id, and a body.
//! The body holds two optional correlation identifiers (`id`, assigned by the
//! output path at send time, and `in_reply_to`, naming the `id` of the
//! envelope this one answers) plus a behaviour-specific payload.

use vstd::prelude::*;

verus! {

/// One transmitted protocol unit: source node, destination node, body.
#[derive(Debug)]
pub struct Message<P> {
    pub src: String,
    pub dst: String,
    pub body: Body<P>,
}

/// Envelope payload plus correlation metadata.
#[derive(Debug)]
pub struct Body<P> {
    /// Per-sending-process identifier, assigned at the moment of
    /// transmission; `None` until the output path stamps it.
    pub id: Option<usize>,
    /// When present, equals the `id` of the envelope this one answers.
    pub in_reply_to: Option<usize>,
    pub payload: P,
}

/// Initialisation metadata, delivered once per process lifetime: the node's
/// own id and the full roster of node ids in the cluster.
#[derive(Debug)]
pub struct InitPayload {
    pub node_id: String,
    pub node_ids: Vec<String>,
}

impl Clone for InitPayload {
    /// A field-for-field copy: same node id, same roster.
    fn clone(&self) -> (res: Self)
        ensures
            res.node_id == self.node_id,
            res.node_ids.deep_view() == self.node_ids.deep_view(),
    {
        let res = InitPayload { node_id: self.node_id.clone(), node_ids: self.node_ids.clone() };
        proof {
            assert forall|i: int| 0 <= i < res.node_ids@.len() implies res.node_ids.deep_view()[i]
                == self.node_ids.deep_view()[i] by {
                assert(cloned::<String>(self.node_ids@[i], res.node_ids@[i]));
            }
            assert(res.node_ids.deep_view() =~= self.node_ids.deep_view());
        }
        res
    }
}

impl<P> Message<P> {
    /// A fresh outbound envelope: no identifier yet, no correlation.
    pub fn new(src: String, dst: String, payload: P) -> (r: Self)
        ensures
            r.src == src,
            r.dst == dst,
            r.body.id is None,
            r.body.in_reply_to is None,
            r.body.payload == payload,
    {
        Self { src, dst, body: Body { id: None, in_reply_to: None, payload } }
    }

    /// The only sanctioned way to build a reply: swap source and
    /// destination, and correlate the reply to this envelope's identifier.
    /// The reply's own identifier is left unassigned for the output path.
    pub fn make_response(&self, payload: P) -> (r: Self)
        ensures
            r.src == self.dst,
            r.dst == self.src,
            r.body.id is None,
            r.body.in_reply_to == self.body.id,
            r.body.payload == payload,
    {
        Self {
            src: self.dst.clone(),
            dst: self.src.clone(),
            body: Body { id: None, in_reply_to: self.body.id, payload },
        }
    }
}

} // verus!
