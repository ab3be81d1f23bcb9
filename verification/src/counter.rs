//! The grow-only counter node.
//!
//! Each node owns its share of the total and publishes it to the sequential
//! key-value peer under its own node id; on a fixed interval it also reads
//! every other node's share back and remembers the sum. A client `read`
//! answers with the node's own share plus the last sum it fetched. The
//! runtime performs the key-value requests through the correlation service;
//! this module decides what to write, whom to read, and what the answers
//! mean.

use vstd::prelude::*;

use crate::broadcast::is_reply_to;
use crate::decimal::{counter_string, decimal_digits, decimal_value, is_decimal, parse_counter};
use crate::protocol::{InitPayload, Message};

verus! {

broadcast use vstd::seq_lib::group_seq_properties;

/// The wire payloads of the counter behaviour.
pub enum CounterPayload {
    Init(InitPayload),
    InitOk,
    Add { delta: usize },
    AddOk,
    Read,
    ReadOk { value: usize },
    Unknown,
}

/// The node state: its own share, the last fetched sum of the other nodes'
/// shares, and its configuration.
pub struct GrowOnlyCounterNode {
    pub counter: usize,
    pub other_counters: usize,
    pub init: Option<InitPayload>,
}

/// The roster without this node itself: the peers whose shares are read.
pub open spec fn peers_of(roster: Seq<Seq<char>>, id: Seq<char>) -> Seq<Seq<char>>
    decreases roster.len(),
{
    if roster.len() == 0 {
        Seq::empty()
    } else if roster.last() == id {
        peers_of(roster.drop_last(), id)
    } else {
        peers_of(roster.drop_last(), id).push(roster.last())
    }
}

/// The sum of the parsable counter values among `values`; a missing or
/// unparsable value counts zero, exactly as a failed read is skipped.
pub open spec fn parsed_sum(values: Seq<Seq<char>>) -> nat
    decreases values.len(),
{
    if values.len() == 0 {
        0
    } else {
        parsed_sum(values.drop_last()) + (if is_decimal(values.last()) && decimal_value(
            values.last(),
        ) <= usize::MAX {
            decimal_value(values.last())
        } else {
            0
        })
    }
}

/// Earlier partial sums never exceed the whole sum.
proof fn lemma_parsed_sum_prefix(values: Seq<Seq<char>>, i: int)
    requires
        0 <= i <= values.len(),
    ensures
        parsed_sum(values.take(i)) <= parsed_sum(values),
    decreases values.len() - i,
{
    if i < values.len() {
        lemma_parsed_sum_prefix(values, i + 1);
        assert(values.take(i + 1).drop_last() =~= values.take(i));
        assert(values.take(i + 1).last() == values[i]);
    } else {
        assert(values.take(i) =~= values);
    }
}

impl GrowOnlyCounterNode {
    /// The node's identity, once initialised.
    pub open spec fn node_id(self) -> Option<Seq<char>> {
        match self.init {
            Some(ip) => Some(ip.node_id@),
            None => None,
        }
    }

    /// An unconfigured node: both tallies at zero.
    pub fn new() -> (r: Self)
        ensures
            r.counter == 0,
            r.other_counters == 0,
            r.node_id() is None,
    {
        GrowOnlyCounterNode { counter: 0, other_counters: 0, init: None }
    }

    /// Act on one inbound envelope: record an addition to this node's own
    /// share, or answer a read with the freshest total this node can offer.
    pub fn handle(&mut self, message: Message<CounterPayload>) -> (r: Option<
        Message<CounterPayload>,
    >)
        requires
            message.body.payload matches CounterPayload::Add { delta } ==> old(self).counter
                + delta <= usize::MAX,
            message.body.payload is Read ==> old(self).counter + old(self).other_counters
                <= usize::MAX,
        ensures
            match message.body.payload {
                CounterPayload::Init(init) => {
                    &&& (final(self).init matches Some(ip) && ip.node_id@ == init.node_id@
                        && ip.node_ids.deep_view() == init.node_ids.deep_view())
                    &&& final(self).counter == old(self).counter
                    &&& final(self).other_counters == old(self).other_counters
                    &&& (r matches Some(resp) && is_reply_to(resp, message)
                        && resp.body.payload is InitOk)
                },
                CounterPayload::Add { delta } => {
                    &&& final(self).counter == old(self).counter + delta
                    &&& final(self).other_counters == old(self).other_counters
                    &&& final(self).init == old(self).init
                    &&& (r matches Some(resp) && is_reply_to(resp, message)
                        && resp.body.payload is AddOk)
                },
                CounterPayload::Read => {
                    &&& *final(self) == *old(self)
                    &&& (r matches Some(resp) && is_reply_to(resp, message)
                        && resp.body.payload == (CounterPayload::ReadOk {
                            value: (old(self).counter + old(self).other_counters) as usize,
                        }))
                },
                _ => *final(self) == *old(self) && r is None,
            },
    {
        let reply: Option<CounterPayload> = match &message.body.payload {
            CounterPayload::Init(init) => {
                self.init = Some(init.clone());
                Some(CounterPayload::InitOk)
            },
            CounterPayload::Add { delta } => {
                self.counter = self.counter + *delta;
                Some(CounterPayload::AddOk)
            },
            CounterPayload::Read => {
                Some(CounterPayload::ReadOk { value: self.counter + self.other_counters })
            },
            CounterPayload::InitOk | CounterPayload::AddOk | CounterPayload::ReadOk { .. }
            | CounterPayload::Unknown => None,
        };
        match reply {
            Some(payload) => Some(message.make_response(payload)),
            None => None,
        }
    }

    /// The plan for one fetch tick: publish this node's share in decimal
    /// under its own id, and read every other node on the roster. Nothing
    /// to do before initialisation.
    pub fn fetch_plan(&self) -> (r: Option<(String, String, Vec<String>)>)
        ensures
            match self.init {
                None => r is None,
                Some(ip) => r matches Some(plan) && plan.0 == ip.node_id && plan.1@
                    == decimal_digits(self.counter as nat) && plan.2.deep_view() == peers_of(
                    ip.node_ids.deep_view(),
                    ip.node_id@,
                ),
            },
    {
        let ip = match &self.init {
            Some(ip) => ip,
            None => {
                return None;
            },
        };
        let id = ip.node_id.clone();
        let value = counter_string(self.counter);
        let mut peers: Vec<String> = Vec::new();
        proof {
            assert(peers.deep_view() =~= peers_of(ip.node_ids.deep_view().take(0), id@));
        }
        let mut i: usize = 0;
        while i < ip.node_ids.len()
            invariant
                0 <= i <= ip.node_ids@.len(),
                id == ip.node_id,
                peers.deep_view() == peers_of(ip.node_ids.deep_view().take(i as int), id@),
            decreases ip.node_ids@.len() - i,
        {
            proof {
                assert(ip.node_ids.deep_view().take(i + 1).drop_last() =~= ip.node_ids.deep_view()
                    .take(i as int));
                assert(ip.node_ids.deep_view().take(i + 1).last() == ip.node_ids.deep_view()[
                    i as int
                ]);
            }
            if !ip.node_ids[i].eq(&id) {
                let ghost pre = peers.deep_view();
                peers.push(ip.node_ids[i].clone());
                proof {
                    assert(peers@.last() == ip.node_ids@[i as int]);
                    assert(peers.deep_view() =~= pre.push(ip.node_ids.deep_view()[i as int]));
                }
            }
            i += 1;
        }
        proof {
            assert(ip.node_ids.deep_view().take(ip.node_ids@.len() as int) =~= ip.node_ids
                .deep_view());
        }
        Some((id, value, peers))
    }

    /// Take in the values read from the peers this tick: the sum of the
    /// parsable ones becomes the node's view of the others' total. A peer
    /// whose read failed or returned something unparsable contributes
    /// nothing, exactly as a skipped read.
    pub fn apply_fetched(&mut self, values: &Vec<String>)
        requires
            parsed_sum(values.deep_view()) <= usize::MAX,
        ensures
            final(self).other_counters == parsed_sum(values.deep_view()),
            final(self).counter == old(self).counter,
            final(self).init == old(self).init,
    {
        let mut total: usize = 0;
        let mut i: usize = 0;
        while i < values.len()
            invariant
                0 <= i <= values@.len(),
                parsed_sum(values.deep_view()) <= usize::MAX,
                total as nat == parsed_sum(values.deep_view().take(i as int)),
            decreases values@.len() - i,
        {
            proof {
                assert(values.deep_view().take(i + 1).drop_last() =~= values.deep_view().take(
                    i as int,
                ));
                assert(values.deep_view().take(i + 1).last() == values.deep_view()[i as int]);
                lemma_parsed_sum_prefix(values.deep_view(), i + 1);
            }
            let parsed = parse_counter(values[i].as_str());
            match parsed {
                Some(v) => {
                    total = total + v;
                },
                None => {},
            }
            i += 1;
        }
        proof {
            assert(values.deep_view().take(values@.len() as int) =~= values.deep_view());
        }
        self.other_counters = total;
    }
}

} // verus!
