//! The simpler fault-tolerant broadcast variant.
//!
//! Instead of per-neighbour unknown-sets, every tick sends the node's whole
//! value set to every neighbour: resending everything forever tolerates any
//! finite number of drops, at the price of unbounded repeat traffic.
//! Received gossip is merged and acknowledged with exactly the values it
//! carried; this variant does not act on acknowledgments.

use vstd::prelude::*;

use crate::broadcast::{is_reply_to, topo_lookup, BroadcastPayload};
use crate::protocol::{InitPayload, Message};
use crate::vset::{clone_values, vec_names_merge, vec_set_insert, vec_set_merge};

verus! {

broadcast use vstd::seq_lib::group_seq_properties;

/// The node state: identity, the values seen, and the neighbour names.
pub struct FaultTolerantBroadcastNode {
    pub init: Option<InitPayload>,
    pub messages: Vec<usize>,
    pub neighbours: Vec<String>,
}

impl FaultTolerantBroadcastNode {
    /// Value and neighbour vectors are duplicate-free.
    pub open spec fn wf(self) -> bool {
        &&& self.messages@.no_duplicates()
        &&& self.neighbours.deep_view().no_duplicates()
    }

    /// The node's identity, once initialised.
    pub open spec fn node_id(self) -> Option<Seq<char>> {
        match self.init {
            Some(ip) => Some(ip.node_id@),
            None => None,
        }
    }

    /// An unconfigured node.
    pub fn new() -> (r: Self)
        ensures
            r.wf(),
            r.node_id() is None,
            r.messages@ == Seq::<usize>::empty(),
            r.neighbours@ == Seq::<String>::empty(),
    {
        FaultTolerantBroadcastNode { init: None, messages: Vec::new(), neighbours: Vec::new() }
    }

    /// Act on one inbound envelope: merge what it teaches, answer what it
    /// asks. Gossip is merged without acknowledgment in this variant.
    pub fn handle(&mut self, message: Message<BroadcastPayload>) -> (r: Option<
        Message<BroadcastPayload>,
    >)
        requires
            old(self).wf(),
        ensures
            final(self).wf(),
            match message.body.payload {
                BroadcastPayload::Init(init) => {
                    &&& (final(self).init matches Some(ip) && ip.node_id@ == init.node_id@
                        && ip.node_ids.deep_view() == init.node_ids.deep_view())
                    &&& final(self).messages == old(self).messages
                    &&& final(self).neighbours == old(self).neighbours
                    &&& (r matches Some(resp) && is_reply_to(resp, message)
                        && resp.body.payload is InitOk)
                },
                BroadcastPayload::Broadcast { message: m } => {
                    &&& final(self).messages@.to_set() == old(self).messages@.to_set().insert(m)
                    &&& final(self).neighbours == old(self).neighbours
                    &&& final(self).init == old(self).init
                    &&& (r matches Some(resp) && is_reply_to(resp, message)
                        && resp.body.payload is BroadcastOk)
                },
                BroadcastPayload::Read => {
                    &&& *final(self) == *old(self)
                    &&& (r matches Some(resp) && is_reply_to(resp, message)
                        && (resp.body.payload matches BroadcastPayload::ReadOk { messages: ms }
                        && ms@.to_set() == old(self).messages@.to_set() && ms@.no_duplicates()))
                },
                BroadcastPayload::Topology { topology } => {
                    &&& final(self).neighbours.deep_view().to_set() == (match old(
                        self,
                    ).node_id() {
                        Some(id) => match topo_lookup(topology@, id) {
                            Some(names) => old(self).neighbours.deep_view().to_set().union(
                                names.to_set(),
                            ),
                            None => old(self).neighbours.deep_view().to_set(),
                        },
                        None => old(self).neighbours.deep_view().to_set(),
                    })
                    &&& final(self).messages == old(self).messages
                    &&& final(self).init == old(self).init
                    &&& (r matches Some(resp) && is_reply_to(resp, message)
                        && resp.body.payload is TopologyOk)
                },
                BroadcastPayload::Gossip { recipients, messages: vals } => {
                    if vals@.len() == 0 {
                        *final(self) == *old(self) && r is None
                    } else {
                        &&& final(self).messages@.to_set() == old(self).messages@.to_set().union(
                            vals@.to_set(),
                        )
                        &&& final(self).neighbours == old(self).neighbours
                        &&& final(self).init == old(self).init
                        &&& (r matches Some(resp) && is_reply_to(resp, message)
                            && (resp.body.payload matches BroadcastPayload::GossipOk {
                                messages: ms,
                            } && ms@ == vals@))
                    }
                },
                _ => *final(self) == *old(self) && r is None,
            },
    {
        let reply: Option<BroadcastPayload> = match &message.body.payload {
            BroadcastPayload::Init(init) => {
                self.init = Some(init.clone());
                Some(BroadcastPayload::InitOk)
            },
            BroadcastPayload::Broadcast { message: m } => {
                vec_set_insert(&mut self.messages, *m);
                Some(BroadcastPayload::BroadcastOk)
            },
            BroadcastPayload::Read => {
                Some(BroadcastPayload::ReadOk { messages: clone_values(&self.messages) })
            },
            BroadcastPayload::Topology { topology } => {
                match &self.init {
                    Some(ip) => {
                        let id = ip.node_id.clone();
                        let mut i: usize = 0;
                        while i < topology.len() && !(topology[i].node.eq(&id))
                            invariant
                                0 <= i <= topology@.len(),
                                forall|j: int|
                                    0 <= j < i ==> (#[trigger] topology@[j]).node@ != id@,
                            decreases topology@.len() - i,
                        {
                            i += 1;
                        }
                        if i < topology.len() {
                            vec_names_merge(&mut self.neighbours, &topology[i].neighbours);
                            proof {
                                crate::broadcast::lemma_topo_lookup_first(topology@, id@, i as int);
                            }
                        } else {
                            proof {
                                crate::broadcast::lemma_topo_lookup_missing(topology@, id@);
                            }
                        }
                    },
                    None => {},
                }
                Some(BroadcastPayload::TopologyOk)
            },
            BroadcastPayload::Gossip { recipients: _, messages: vals } => {
                if vals.len() == 0 {
                    None
                } else {
                    vec_set_merge(&mut self.messages, vals);
                    Some(BroadcastPayload::GossipOk { messages: clone_values(vals) })
                }
            },
            BroadcastPayload::InitOk
            | BroadcastPayload::BroadcastOk
            | BroadcastPayload::ReadOk { .. }
            | BroadcastPayload::TopologyOk
            | BroadcastPayload::GossipOk { .. }
            | BroadcastPayload::Unknown => None,
        };
        match reply {
            Some(payload) => Some(message.make_response(payload)),
            None => None,
        }
    }

    /// One gossip tick: send the whole value set to every neighbour, with
    /// no recipient list — this variant relies on blanket resending alone.
    /// Skipped entirely while there is nothing to say. Reads but never
    /// changes the node's state.
    pub fn handle_gossip(&self) -> (out: Vec<Message<BroadcastPayload>>)
        requires
            self.wf(),
        ensures
            match self.node_id() {
                None => out@.len() == 0,
                Some(id) => if self.messages@.len() == 0 {
                    out@.len() == 0
                } else {
                    &&& out@.len() == self.neighbours@.len()
                    &&& forall|i: int| 0 <= i < out@.len() ==> {
                        &&& (#[trigger] out@[i]).src@ == id
                        &&& out@[i].dst@ == self.neighbours.deep_view()[i]
                        &&& out@[i].body.id is None
                        &&& out@[i].body.in_reply_to is None
                        &&& (out@[i].body.payload matches BroadcastPayload::Gossip {
                            recipients: rs,
                            messages: ms,
                        } && rs@.len() == 0 && ms@.to_set() == self.messages@.to_set()
                            && ms@.no_duplicates())
                    }
                },
            },
    {
        let id = match &self.init {
            Some(ip) => ip.node_id.clone(),
            None => {
                return Vec::new();
            },
        };
        if self.messages.is_empty() {
            return Vec::new();
        }
        let mut out: Vec<Message<BroadcastPayload>> = Vec::new();
        let mut k: usize = 0;
        while k < self.neighbours.len()
            invariant
                0 <= k <= self.neighbours@.len(),
                self.wf(),
                self.node_id() == Some(id@),
                out@.len() == k,
                forall|i: int| 0 <= i < out@.len() ==> {
                    &&& (#[trigger] out@[i]).src@ == id@
                    &&& out@[i].dst@ == self.neighbours.deep_view()[i]
                    &&& out@[i].body.id is None
                    &&& out@[i].body.in_reply_to is None
                    &&& (out@[i].body.payload matches BroadcastPayload::Gossip {
                        recipients: rs,
                        messages: ms,
                    } && rs@.len() == 0 && ms@.to_set() == self.messages@.to_set()
                        && ms@.no_duplicates())
                },
            decreases self.neighbours@.len() - k,
        {
            let envelope = Message::new(
                id.clone(),
                self.neighbours[k].clone(),
                BroadcastPayload::Gossip {
                    recipients: Vec::new(),
                    messages: clone_values(&self.messages),
                },
            );
            proof {
                assert(envelope.dst@ == self.neighbours.deep_view()[k as int]);
            }
            out.push(envelope);
            k += 1;
        }
        out
    }
}

} // verus!
