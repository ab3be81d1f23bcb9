//! The single-node broadcast variant: no replication, no gossip.
//!
//! With one node in the cluster the broadcast problem collapses to keeping
//! a set: store each broadcast value, answer reads with the whole set, and
//! acknowledge topology without using it.

use vstd::prelude::*;

use crate::broadcast::{is_reply_to, BroadcastPayload};
use crate::protocol::Message;
use crate::vset::{clone_values, vec_set_insert};

verus! {

/// The node state: just the values seen.
pub struct SingleNodeBroadcastNode {
    pub messages: Vec<usize>,
}

impl SingleNodeBroadcastNode {
    /// The value vector is duplicate-free.
    pub open spec fn wf(self) -> bool {
        self.messages@.no_duplicates()
    }

    /// An empty node.
    pub fn new() -> (r: Self)
        ensures
            r.wf(),
            r.messages@ == Seq::<usize>::empty(),
    {
        SingleNodeBroadcastNode { messages: Vec::new() }
    }

    /// Act on one inbound envelope: store broadcasts, answer reads,
    /// acknowledge configuration. Gossip does not occur with one node and
    /// is ignored.
    pub fn handle(&mut self, message: Message<BroadcastPayload>) -> (r: Option<
        Message<BroadcastPayload>,
    >)
        requires
            old(self).wf(),
        ensures
            final(self).wf(),
            match message.body.payload {
                BroadcastPayload::Init(_) => *final(self) == *old(self) && (r matches Some(resp)
                    && is_reply_to(resp, message) && resp.body.payload is InitOk),
                BroadcastPayload::Broadcast { message: m } => {
                    &&& final(self).messages@.to_set() == old(self).messages@.to_set().insert(m)
                    &&& (r matches Some(resp) && is_reply_to(resp, message)
                        && resp.body.payload is BroadcastOk)
                },
                BroadcastPayload::Read => {
                    &&& *final(self) == *old(self)
                    &&& (r matches Some(resp) && is_reply_to(resp, message)
                        && (resp.body.payload matches BroadcastPayload::ReadOk { messages: ms }
                        && ms@.to_set() == old(self).messages@.to_set() && ms@.no_duplicates()))
                },
                BroadcastPayload::Topology { .. } => *final(self) == *old(self) && (r matches Some(
                    resp,
                ) && is_reply_to(resp, message) && resp.body.payload is TopologyOk),
                _ => *final(self) == *old(self) && r is None,
            },
    {
        let reply: Option<BroadcastPayload> = match &message.body.payload {
            BroadcastPayload::Init(_) => Some(BroadcastPayload::InitOk),
            BroadcastPayload::Broadcast { message: m } => {
                vec_set_insert(&mut self.messages, *m);
                Some(BroadcastPayload::BroadcastOk)
            },
            BroadcastPayload::Read => {
                Some(BroadcastPayload::ReadOk { messages: clone_values(&self.messages) })
            },
            BroadcastPayload::Topology { .. } => Some(BroadcastPayload::TopologyOk),
            BroadcastPayload::InitOk
            | BroadcastPayload::BroadcastOk
            | BroadcastPayload::ReadOk { .. }
            | BroadcastPayload::TopologyOk
            | BroadcastPayload::Gossip { .. }
            | BroadcastPayload::GossipOk { .. }
            | BroadcastPayload::Unknown => None,
        };
        match reply {
            Some(payload) => Some(message.make_response(payload)),
            None => None,
        }
    }
}

} // verus!
