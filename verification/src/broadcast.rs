//! The gossip broadcast engine.
//!
//! A node accumulates a growing set of broadcast values and disseminates it
//! to a fixed neighbour set by periodic gossip with anti-entropy retry: per
//! neighbour it tracks the values believed not yet acknowledged by that
//! neighbour, resends them on every tick, and clears them only when the
//! neighbour acknowledges them with a `GossipOk` naming exactly the values
//! it merged. Delivery is therefore at-least-once; duplicate delivery is
//! harmless because all state is a set.
//!
//! The node is a pure state machine: the runtime hands it one decoded
//! envelope (or one timer tick) at a time and transmits whatever envelopes
//! it returns. Every transition is stated against `GossipView`, the
//! mathematical view of the node's state, and those same transition
//! functions drive the network-level convergence argument in the
//! `convergence` module.

use vstd::prelude::*;

use crate::protocol::{InitPayload, Message};
use crate::vset::{
    clone_names, clone_values, vec_names_contains, vec_set_insert, vec_set_merge,
    vec_set_remove_all,
};

verus! {

broadcast use vstd::seq_lib::group_seq_properties;

/// One row of a topology configuration: a node and its neighbour set.
pub struct TopologyEntry {
    pub node: String,
    pub neighbours: Vec<String>,
}

/// The wire payloads of the broadcast behaviour. A `Gossip` without a
/// `recipients` field on the wire decodes with an empty recipient list.
pub enum BroadcastPayload {
    Init(InitPayload),
    InitOk,
    Broadcast { message: usize },
    BroadcastOk,
    Read,
    ReadOk { messages: Vec<usize> },
    Topology { topology: Vec<TopologyEntry> },
    TopologyOk,
    Gossip { recipients: Vec<String>, messages: Vec<usize> },
    GossipOk { messages: Vec<usize> },
    Unknown,
}

/// A neighbour and the values believed not yet acknowledged by it.
pub struct Neighbour {
    pub name: String,
    pub unknown: Vec<usize>,
}

/// The mathematical view of one gossip node: its identity, the set of values
/// it has seen, its neighbour set, and the per-neighbour unknown-sets.
#[verifier::ext_equal]
pub struct GossipView {
    pub node_id: Option<Seq<char>>,
    pub messages: Set<usize>,
    pub neighbours: Set<Seq<char>>,
    pub unknown: Map<Seq<char>, Set<usize>>,
}

impl GossipView {
    /// The unknown-sets are kept exactly for the neighbours.
    pub open spec fn wf(self) -> bool {
        self.unknown.dom() == self.neighbours
    }
}

/// Mark `vals` as unknown to every neighbour in `targets`.
pub open spec fn mark_unknown(v: GossipView, targets: Set<Seq<char>>, vals: Set<usize>) -> GossipView {
    GossipView {
        unknown: Map::new(
            |k: Seq<char>| v.unknown.dom().contains(k),
            |k: Seq<char>|
                if targets.contains(k) {
                    v.unknown[k].union(vals)
                } else {
                    v.unknown[k]
                },
        ),
        ..v
    }
}

/// Ingest one client broadcast: learn the value and mark it unknown to
/// every current neighbour.
pub open spec fn recv_broadcast(v: GossipView, m: usize) -> GossipView {
    mark_unknown(
        GossipView { messages: v.messages.insert(m), ..v },
        v.neighbours,
        Set::empty().insert(m),
    )
}

/// Receive a gossip envelope from `src` carrying `vals` and the sender's
/// recipient list: merge the values, and mark them unknown to every
/// neighbour the sender did not itself address (and that is not the sender),
/// propagating the knowledge gap onward with bounded fan-out.
pub open spec fn recv_gossip(
    v: GossipView,
    src: Seq<char>,
    recipients: Set<Seq<char>>,
    vals: Set<usize>,
) -> GossipView {
    mark_unknown(
        GossipView { messages: v.messages.union(vals), ..v },
        v.neighbours.difference(recipients).remove(src),
        vals,
    )
}

/// Receive an acknowledgment from `src`: the acknowledged values are no
/// longer unknown to it. This is the sole convergence signal; nothing else
/// ever shrinks an unknown-set.
pub open spec fn recv_gossip_ok(v: GossipView, src: Seq<char>, vals: Set<usize>) -> GossipView {
    if v.unknown.dom().contains(src) {
        GossipView { unknown: v.unknown.insert(src, v.unknown[src].difference(vals)), ..v }
    } else {
        v
    }
}

/// Adopt a configured neighbour set: new neighbours start with nothing
/// marked unknown.
pub open spec fn add_neighbours(v: GossipView, names: Set<Seq<char>>) -> GossipView {
    GossipView {
        neighbours: v.neighbours.union(names),
        unknown: Map::new(
            |k: Seq<char>| v.neighbours.contains(k) || names.contains(k),
            |k: Seq<char>|
                if v.unknown.dom().contains(k) {
                    v.unknown[k]
                } else {
                    Set::empty()
                },
        ),
        ..v
    }
}

/// The neighbour list configured for `id`, if the topology names it: the
/// first matching row wins.
pub open spec fn topo_lookup(entries: Seq<TopologyEntry>, id: Seq<char>) -> Option<Seq<Seq<char>>>
    decreases entries.len(),
{
    if entries.len() == 0 {
        None
    } else if entries[0].node@ == id {
        Some(entries[0].neighbours.deep_view())
    } else {
        topo_lookup(entries.drop_first(), id)
    }
}

/// What one tick sends: for each neighbour still owed something, in table
/// order, that neighbour's name and exactly the values unacknowledged by
/// it; neighbours with nothing pending are skipped.
pub open spec fn tick_plan(ns: Seq<Neighbour>) -> Seq<(Seq<char>, Seq<usize>)>
    decreases ns.len(),
{
    if ns.len() == 0 {
        Seq::empty()
    } else if ns.last().unknown@.len() > 0 {
        tick_plan(ns.drop_last()).push((ns.last().name@, ns.last().unknown@))
    } else {
        tick_plan(ns.drop_last())
    }
}

/// Every neighbour that still has unacknowledged values is sent one tick
/// envelope, carrying exactly those values.
pub proof fn lemma_tick_plan_entry(ns: Seq<Neighbour>, i: int)
    requires
        0 <= i < ns.len(),
        ns[i].unknown@.len() > 0,
    ensures
        exists|j: int|
            0 <= j < tick_plan(ns).len() && (#[trigger] tick_plan(ns)[j]) == (
                ns[i].name@,
                ns[i].unknown@,
            ),
    decreases ns.len(),
{
    if i == ns.len() - 1 {
        let plan = tick_plan(ns);
        assert(plan[plan.len() - 1] == (ns[i].name@, ns[i].unknown@));
    } else {
        assert(ns.drop_last()[i] == ns[i]);
        lemma_tick_plan_entry(ns.drop_last(), i);
        let sub = tick_plan(ns.drop_last());
        let j = choose|j: int|
            0 <= j < sub.len() && (#[trigger] sub[j]) == (
                ns.drop_last()[i].name@,
                ns.drop_last()[i].unknown@,
            );
        if ns.last().unknown@.len() > 0 {
            assert(tick_plan(ns)[j] == sub[j]);
        } else {
            assert(tick_plan(ns) == sub);
        }
    }
}

/// Whether a node receiving gossip from `src` with recipient list
/// `recipients` must mark the values unknown to the neighbour `name`.
pub open spec fn gossip_marks(name: Seq<char>, recipients: Seq<Seq<char>>, src: Seq<char>) -> bool {
    !recipients.contains(name) && name != src
}

/// `base` with `vals` merged in when `cond` holds.
pub open spec fn merged_if(cond: bool, base: Set<usize>, vals: Set<usize>) -> Set<usize> {
    if cond {
        base.union(vals)
    } else {
        base
    }
}

/// Whether the neighbour table has a row for the name `x`.
fn neighbour_contains(ns: &Vec<Neighbour>, x: &String) -> (r: bool)
    ensures
        r == ns@.map_values(|n: Neighbour| n.name@).contains(x@),
{
    let mut i: usize = 0;
    while i < ns.len()
        invariant
            0 <= i <= ns@.len(),
            forall|j: int| 0 <= j < i ==> (#[trigger] ns@[j]).name@ != x@,
        decreases ns@.len() - i,
    {
        if ns[i].name.eq(x) {
            proof {
                assert(ns@.map_values(|n: Neighbour| n.name@)[i as int] == x@);
            }
            return true;
        }
        i += 1;
    }
    false
}

/// Merge `vals` into every neighbour's unknown-set.
fn merge_unknown_all(ns: &mut Vec<Neighbour>, vals: &Vec<usize>)
    requires
        forall|i: int|
            0 <= i < old(ns)@.len() ==> (#[trigger] old(ns)@[i]).unknown@.no_duplicates(),
    ensures
        final(ns)@.len() == old(ns)@.len(),
        forall|i: int| 0 <= i < final(ns)@.len() ==> {
            &&& (#[trigger] final(ns)@[i]).name == old(ns)@[i].name
            &&& final(ns)@[i].unknown@.no_duplicates()
            &&& final(ns)@[i].unknown@.to_set() == old(ns)@[i].unknown@.to_set().union(
                vals@.to_set(),
            )
        },
{
    let mut i: usize = 0;
    while i < ns.len()
        invariant
            0 <= i <= ns@.len(),
            ns@.len() == old(ns)@.len(),
            forall|j: int|
                0 <= j < old(ns)@.len() ==> (#[trigger] old(ns)@[j]).unknown@.no_duplicates(),
            forall|j: int| i <= j < ns@.len() ==> #[trigger] ns@[j] == old(ns)@[j],
            forall|j: int| 0 <= j < i ==> {
                &&& (#[trigger] ns@[j]).name == old(ns)@[j].name
                &&& ns@[j].unknown@.no_duplicates()
                &&& ns@[j].unknown@.to_set() == old(ns)@[j].unknown@.to_set().union(vals@.to_set())
            },
        decreases ns@.len() - i,
    {
        proof {
            assert(ns@[i as int] == old(ns)@[i as int]);
        }
        let entry = &mut ns[i];
        vec_set_merge(&mut entry.unknown, vals);
        i += 1;
    }
}

/// Merge `vals` into the unknown-set of every neighbour that the arriving
/// gossip did not already address and that is not the sender.
fn merge_unknown_except(ns: &mut Vec<Neighbour>, recipients: &Vec<String>, src: &String, vals: &Vec<usize>)
    requires
        forall|i: int|
            0 <= i < old(ns)@.len() ==> (#[trigger] old(ns)@[i]).unknown@.no_duplicates(),
    ensures
        final(ns)@.len() == old(ns)@.len(),
        forall|i: int| 0 <= i < final(ns)@.len() ==> {
            &&& (#[trigger] final(ns)@[i]).name == old(ns)@[i].name
            &&& final(ns)@[i].unknown@.no_duplicates()
            &&& final(ns)@[i].unknown@.to_set() == merged_if(
                gossip_marks(old(ns)@[i].name@, recipients.deep_view(), src@),
                old(ns)@[i].unknown@.to_set(),
                vals@.to_set(),
            )
        },
{
    let mut i: usize = 0;
    while i < ns.len()
        invariant
            0 <= i <= ns@.len(),
            ns@.len() == old(ns)@.len(),
            forall|j: int|
                0 <= j < old(ns)@.len() ==> (#[trigger] old(ns)@[j]).unknown@.no_duplicates(),
            forall|j: int| i <= j < ns@.len() ==> #[trigger] ns@[j] == old(ns)@[j],
            forall|j: int| 0 <= j < i ==> {
                &&& (#[trigger] ns@[j]).name == old(ns)@[j].name
                &&& ns@[j].unknown@.no_duplicates()
                &&& ns@[j].unknown@.to_set() == merged_if(
                    gossip_marks(old(ns)@[j].name@, recipients.deep_view(), src@),
                    old(ns)@[j].unknown@.to_set(),
                    vals@.to_set(),
                )
            },
        decreases ns@.len() - i,
    {
        let addressed = vec_names_contains(recipients, &ns[i].name);
        let is_src = ns[i].name.eq(src);
        proof {
            assert(ns@[i as int] == old(ns)@[i as int]);
        }
        if !addressed && !is_src {
            let entry = &mut ns[i];
            vec_set_merge(&mut entry.unknown, vals);
        }
        i += 1;
    }
}

/// Add every listed name that is not yet a neighbour, with an empty
/// unknown-set; rows already present are untouched.
fn add_neighbour_names(ns: &mut Vec<Neighbour>, names: &Vec<String>)
    requires
        old(ns)@.map_values(|n: Neighbour| n.name@).no_duplicates(),
    ensures
        final(ns)@.map_values(|n: Neighbour| n.name@).no_duplicates(),
        old(ns)@.len() <= final(ns)@.len(),
        forall|i: int| 0 <= i < old(ns)@.len() ==> #[trigger] final(ns)@[i] == old(ns)@[i],
        forall|i: int|
            old(ns)@.len() <= i < final(ns)@.len() ==> (#[trigger] final(ns)@[i]).unknown@
                == Seq::<usize>::empty(),
        final(ns)@.map_values(|n: Neighbour| n.name@).to_set() == old(ns)@.map_values(
            |n: Neighbour| n.name@,
        ).to_set().union(names.deep_view().to_set()),
{
    let ghost orig = ns@;
    let mut i: usize = 0;
    while i < names.len()
        invariant
            0 <= i <= names@.len(),
            ns@.map_values(|n: Neighbour| n.name@).no_duplicates(),
            orig.len() <= ns@.len(),
            forall|j: int| 0 <= j < orig.len() ==> #[trigger] ns@[j] == orig[j],
            forall|j: int|
                orig.len() <= j < ns@.len() ==> (#[trigger] ns@[j]).unknown@
                    == Seq::<usize>::empty(),
            ns@.map_values(|n: Neighbour| n.name@).to_set() == orig.map_values(
                |n: Neighbour| n.name@,
            ).to_set().union(names.deep_view().take(i as int).to_set()),
        decreases names@.len() - i,
    {
        let ghost pre = ns@;
        let present = neighbour_contains(ns, &names[i]);
        if !present {
            ns.push(Neighbour { name: names[i].clone(), unknown: Vec::new() });
            proof {
                assert(cloned::<String>(names@[i as int], ns@.last().name));
                assert(ns@.map_values(|n: Neighbour| n.name@) =~= pre.map_values(
                    |n: Neighbour| n.name@,
                ).push(names.deep_view()[i as int]));
            }
        }
        proof {
            let prenames = pre.map_values(|n: Neighbour| n.name@);
            let postnames = ns@.map_values(|n: Neighbour| n.name@);
            assert(names.deep_view().take(i + 1) =~= names.deep_view().take(i as int).push(
                names.deep_view()[i as int],
            ));
            names.deep_view().take(i as int).lemma_push_to_set_commute(names.deep_view()[i as int]);
            if present {
                assert(prenames.contains(names.deep_view()[i as int]));
                assert(postnames.to_set() =~= orig.map_values(|n: Neighbour| n.name@).to_set().union(
                    names.deep_view().take(i + 1).to_set(),
                ));
            } else {
                prenames.lemma_push_to_set_commute(names.deep_view()[i as int]);
                assert(postnames.to_set() =~= orig.map_values(|n: Neighbour| n.name@).to_set().union(
                    names.deep_view().take(i + 1).to_set(),
                ));
            }
        }
        i += 1;
    }
    proof {
        assert(names.deep_view().take(names@.len() as int) =~= names.deep_view());
    }
}

/// Adopt the topology row configured for this node, if it is initialised
/// and the topology names it; a topology that omits this node fails closed
/// to no new neighbours rather than failing hard.
pub open spec fn recv_topology(v: GossipView, entries: Seq<TopologyEntry>) -> GossipView {
    match v.node_id {
        Some(id) => match topo_lookup(entries, id) {
            Some(names) => add_neighbours(v, names.to_set()),
            None => v,
        },
        None => v,
    }
}

/// The correlation rule every reply obeys: source and destination swapped,
/// no identifier yet, `in_reply_to` naming the request's identifier.
pub open spec fn is_reply_to<P>(r: Message<P>, msg: Message<P>) -> bool {
    &&& r.src == msg.dst
    &&& r.dst == msg.src
    &&& r.body.id is None
    &&& r.body.in_reply_to == msg.body.id
}

/// `base` with `vals` removed when `cond` holds.
pub open spec fn acked_if(cond: bool, base: Set<usize>, vals: Set<usize>) -> Set<usize> {
    if cond {
        base.difference(vals)
    } else {
        base
    }
}

/// Clear `vals` from the unknown-set recorded for the acknowledging
/// neighbour `src`; every other row is untouched.
fn ack_unknown(ns: &mut Vec<Neighbour>, src: &String, vals: &Vec<usize>)
    requires
        forall|i: int|
            0 <= i < old(ns)@.len() ==> (#[trigger] old(ns)@[i]).unknown@.no_duplicates(),
    ensures
        final(ns)@.len() == old(ns)@.len(),
        forall|i: int| 0 <= i < final(ns)@.len() ==> {
            &&& (#[trigger] final(ns)@[i]).name == old(ns)@[i].name
            &&& final(ns)@[i].unknown@.no_duplicates()
            &&& final(ns)@[i].unknown@.to_set() == acked_if(
                old(ns)@[i].name@ == src@,
                old(ns)@[i].unknown@.to_set(),
                vals@.to_set(),
            )
        },
{
    let mut i: usize = 0;
    while i < ns.len()
        invariant
            0 <= i <= ns@.len(),
            ns@.len() == old(ns)@.len(),
            forall|j: int|
                0 <= j < old(ns)@.len() ==> (#[trigger] old(ns)@[j]).unknown@.no_duplicates(),
            forall|j: int| i <= j < ns@.len() ==> #[trigger] ns@[j] == old(ns)@[j],
            forall|j: int| 0 <= j < i ==> {
                &&& (#[trigger] ns@[j]).name == old(ns)@[j].name
                &&& ns@[j].unknown@.no_duplicates()
                &&& ns@[j].unknown@.to_set() == acked_if(
                    old(ns)@[j].name@ == src@,
                    old(ns)@[j].unknown@.to_set(),
                    vals@.to_set(),
                )
            },
        decreases ns@.len() - i,
    {
        let is_src = ns[i].name.eq(src);
        proof {
            assert(ns@[i as int] == old(ns)@[i as int]);
        }
        if is_src {
            let entry = &mut ns[i];
            vec_set_remove_all(&mut entry.unknown, vals);
        }
        i += 1;
    }
}

/// The node state of the gossip broadcast behaviour.
pub struct EfficientBroadcastNode {
    pub init: Option<InitPayload>,
    pub neighbours: Vec<Neighbour>,
    pub messages: Vec<usize>,
}

impl EfficientBroadcastNode {
    /// The neighbour names, in table order.
    pub open spec fn names(self) -> Seq<Seq<char>> {
        self.neighbours@.map_values(|n: Neighbour| n.name@)
    }

    /// The unknown-set recorded for the neighbour called `k`.
    pub open spec fn unknown_at(self, k: Seq<char>) -> Set<usize> {
        let i = choose|i: int| 0 <= i < self.neighbours@.len() && self.names()[i] == k;
        self.neighbours@[i].unknown@.to_set()
    }

    /// All value vectors are duplicate-free and the neighbour table has one
    /// row per neighbour.
    pub open spec fn wf(self) -> bool {
        &&& self.messages@.no_duplicates()
        &&& self.names().no_duplicates()
        &&& forall|i: int|
            0 <= i < self.neighbours@.len() ==> (#[trigger] self.neighbours@[i]).unknown@.no_duplicates()
    }

    /// A node that has not been configured: no identity, no neighbours,
    /// nothing seen.
    pub fn new() -> (r: Self)
        ensures
            r.wf(),
            r@.node_id is None,
            r@.messages == Set::<usize>::empty(),
            r@.neighbours == Set::<Seq<char>>::empty(),
    {
        let r = EfficientBroadcastNode { init: None, neighbours: Vec::new(), messages: Vec::new() };
        proof {
            assert(r@.messages =~= Set::<usize>::empty());
            assert(r@.neighbours =~= Set::<Seq<char>>::empty());
        }
        r
    }
}

impl View for EfficientBroadcastNode {
    type V = GossipView;

    open spec fn view(&self) -> GossipView {
        GossipView {
            node_id: match self.init {
                Some(ip) => Some(ip.node_id@),
                None => None,
            },
            messages: self.messages@.to_set(),
            neighbours: self.names().to_set(),
            unknown: Map::new(
                |k: Seq<char>| self.names().to_set().contains(k),
                |k: Seq<char>| self.unknown_at(k),
            ),
        }
    }
}

/// In a well-formed table the row of a name is unique, so the unknown-set
/// recorded for the `i`-th name is the `i`-th row's.
pub proof fn lemma_unknown_at_index(n: EfficientBroadcastNode, i: int)
    requires
        n.names().no_duplicates(),
        0 <= i < n.neighbours@.len(),
    ensures
        n.unknown_at(n.names()[i]) == n.neighbours@[i].unknown@.to_set(),
{
    let k = n.names()[i];
    let j = choose|j: int| 0 <= j < n.neighbours@.len() && n.names()[j] == k;
    assert(n.names()[i] == k);
}

/// The node's view is well-formed: unknown-sets exactly for the neighbours.
pub proof fn lemma_node_view_wf(n: EfficientBroadcastNode)
    ensures
        n@.wf(),
{
    assert(n@.unknown.dom() =~= n@.neighbours);
}

/// When a state change rewrites each row's unknown-set pointwise — by a
/// function of the row's name and old unknown-set — the view's unknown map
/// is the pointwise image of the old one.
proof fn lemma_unknown_map_pointwise(
    pre: EfficientBroadcastNode,
    post: EfficientBroadcastNode,
    f: spec_fn(Seq<char>, Set<usize>) -> Set<usize>,
)
    requires
        pre.names().no_duplicates(),
        post.neighbours@.len() == pre.neighbours@.len(),
        forall|i: int|
            0 <= i < pre.neighbours@.len() ==> (#[trigger] post.neighbours@[i]).name
                == pre.neighbours@[i].name,
        forall|i: int|
            0 <= i < pre.neighbours@.len() ==> (#[trigger] post.neighbours@[i]).unknown@.to_set()
                == f(pre.neighbours@[i].name@, pre.neighbours@[i].unknown@.to_set()),
    ensures
        post.names() == pre.names(),
        post@.unknown == Map::new(
            |k: Seq<char>| pre@.unknown.dom().contains(k),
            |k: Seq<char>| f(k, pre@.unknown[k]),
        ),
{
    assert(post.names() =~= pre.names());
    let target = Map::new(
        |k: Seq<char>| pre@.unknown.dom().contains(k),
        |k: Seq<char>| f(k, pre@.unknown[k]),
    );
    assert(post@.unknown.dom() =~= target.dom());
    assert forall|k: Seq<char>| post@.unknown.dom().contains(k) implies post@.unknown[k]
        == target[k] by {
        let i = choose|i: int| 0 <= i < pre.neighbours@.len() && pre.names()[i] == k;
        assert(pre.names().contains(k));
        lemma_unknown_at_index(pre, i);
        lemma_unknown_at_index(post, i);
        assert(post.names()[i] == k);
        assert(post@.unknown[k] == post.neighbours@[i].unknown@.to_set());
        assert(pre@.unknown[k] == pre.neighbours@[i].unknown@.to_set());
    }
    assert(post@.unknown =~= target);
}

/// After rows are appended with empty unknown-sets and the old rows kept,
/// the view is `add_neighbours` of the old view.
proof fn lemma_view_after_add(
    pre: EfficientBroadcastNode,
    post: EfficientBroadcastNode,
    names: Seq<Seq<char>>,
)
    requires
        pre.names().no_duplicates(),
        post.names().no_duplicates(),
        post.init == pre.init,
        post.messages == pre.messages,
        pre.neighbours@.len() <= post.neighbours@.len(),
        forall|i: int|
            0 <= i < pre.neighbours@.len() ==> #[trigger] post.neighbours@[i]
                == pre.neighbours@[i],
        forall|i: int|
            pre.neighbours@.len() <= i < post.neighbours@.len() ==> (#[trigger] post.neighbours@[
                i
            ]).unknown@ == Seq::<usize>::empty(),
        post.names().to_set() == pre.names().to_set().union(names.to_set()),
    ensures
        post@ == add_neighbours(pre@, names.to_set()),
{
    let target = add_neighbours(pre@, names.to_set());
    assert(post@.neighbours =~= target.neighbours);
    assert(post@.unknown.dom() =~= target.unknown.dom());
    assert forall|k: Seq<char>| post@.unknown.dom().contains(k) implies post@.unknown[k]
        == target.unknown[k] by {
        let j = choose|j: int| 0 <= j < post.neighbours@.len() && post.names()[j] == k;
        assert(post.names().contains(k));
        lemma_unknown_at_index(post, j);
        if pre@.unknown.dom().contains(k) {
            let i = choose|i: int| 0 <= i < pre.neighbours@.len() && pre.names()[i] == k;
            assert(pre.names().contains(k));
            lemma_unknown_at_index(pre, i);
            assert(post.names()[i] == k);
            assert(j == i);
            assert(post@.unknown[k] == pre@.unknown[k]);
        } else {
            if j < pre.neighbours@.len() {
                assert(pre.names()[j] == k);
                assert(pre.names().to_set().contains(k));
                assert(pre@.unknown.dom().contains(k));
            }
            assert(post.neighbours@[j].unknown@ == Seq::<usize>::empty());
            assert(post@.unknown[k] =~= Set::<usize>::empty());
        }
    }
    assert(post@.unknown =~= target.unknown);
    assert(post@ =~~= target);
}

/// Idempotence: delivering the same gossip envelope twice yields exactly
/// the state one delivery produces — all state is sets, so the second merge
/// adds nothing. Each delivery independently owes the same `GossipOk`
/// acknowledgment, by the contract of `handle`, which fixes the reply from
/// the envelope alone.
pub proof fn lemma_gossip_idempotent(
    v: GossipView,
    src: Seq<char>,
    recipients: Set<Seq<char>>,
    vals: Set<usize>,
)
    requires
        v.wf(),
    ensures
        recv_gossip(recv_gossip(v, src, recipients, vals), src, recipients, vals) == recv_gossip(
            v,
            src,
            recipients,
            vals,
        ),
{
    let once = recv_gossip(v, src, recipients, vals);
    let twice = recv_gossip(once, src, recipients, vals);
    assert(twice.messages =~= once.messages);
    assert(twice.unknown.dom() =~= once.unknown.dom());
    assert forall|k: Seq<char>| twice.unknown.dom().contains(k) implies twice.unknown[k]
        == once.unknown[k] by {
        assert(twice.unknown[k] =~= once.unknown[k]);
    }
    assert(twice.unknown =~= once.unknown);
    assert(twice =~~= once);
}

/// The neighbour list of the first topology row for `id`, reached after
/// skipping rows that do not match.
proof fn lemma_topo_lookup_skip(entries: Seq<TopologyEntry>, id: Seq<char>, i: int)
    requires
        0 <= i <= entries.len(),
        forall|j: int| 0 <= j < i ==> (#[trigger] entries[j]).node@ != id,
    ensures
        topo_lookup(entries, id) == topo_lookup(entries.skip(i), id),
    decreases i,
{
    if i > 0 {
        lemma_topo_lookup_skip(entries, id, i - 1);
        assert(entries.skip(i - 1)[0] == entries[i - 1]);
        assert(entries.skip(i - 1).drop_first() =~= entries.skip(i));
    }
}

/// The first matching topology row decides the lookup.
pub proof fn lemma_topo_lookup_first(entries: Seq<TopologyEntry>, id: Seq<char>, i: int)
    requires
        0 <= i < entries.len(),
        entries[i].node@ == id,
        forall|j: int| 0 <= j < i ==> (#[trigger] entries[j]).node@ != id,
    ensures
        topo_lookup(entries, id) == Some(entries[i].neighbours.deep_view()),
{
    lemma_topo_lookup_skip(entries, id, i);
    assert(entries.skip(i)[0] == entries[i]);
}

/// A topology with no row for `id` configures nothing for it.
pub proof fn lemma_topo_lookup_missing(entries: Seq<TopologyEntry>, id: Seq<char>)
    requires
        forall|j: int| 0 <= j < entries.len() ==> (#[trigger] entries[j]).node@ != id,
    ensures
        topo_lookup(entries, id) is None,
{
    lemma_topo_lookup_skip(entries, id, entries.len() as int);
    assert(entries.skip(entries.len() as int) =~= Seq::<TopologyEntry>::empty());
}

impl EfficientBroadcastNode {
    /// Act on one inbound envelope: apply the transition its payload calls
    /// for and return the reply owed for it, if any. Unknown payloads and
    /// stray acknowledgments of the node's own replies are no-ops.
    pub fn handle(&mut self, message: Message<BroadcastPayload>) -> (r: Option<
        Message<BroadcastPayload>,
    >)
        requires
            old(self).wf(),
        ensures
            final(self).wf(),
            match message.body.payload {
                BroadcastPayload::Init(init) => {
                    &&& final(self)@ == (GossipView { node_id: Some(init.node_id@), ..old(self)@ })
                    &&& (final(self).init matches Some(ip) && ip.node_id@ == init.node_id@
                        && ip.node_ids.deep_view() == init.node_ids.deep_view())
                    &&& (r matches Some(resp) && is_reply_to(resp, message)
                        && resp.body.payload is InitOk)
                },
                BroadcastPayload::Broadcast { message: m } => {
                    &&& final(self)@ == recv_broadcast(old(self)@, m)
                    &&& (r matches Some(resp) && is_reply_to(resp, message)
                        && resp.body.payload is BroadcastOk)
                },
                BroadcastPayload::Read => {
                    &&& *final(self) == *old(self)
                    &&& (r matches Some(resp) && is_reply_to(resp, message)
                        && (resp.body.payload matches BroadcastPayload::ReadOk { messages: ms }
                        && ms@.to_set() == old(self)@.messages && ms@.no_duplicates()))
                },
                BroadcastPayload::Topology { topology } => {
                    &&& final(self)@ == recv_topology(old(self)@, topology@)
                    &&& (r matches Some(resp) && is_reply_to(resp, message)
                        && resp.body.payload is TopologyOk)
                },
                BroadcastPayload::Gossip { recipients, messages: vals } => {
                    if vals@.len() == 0 {
                        *final(self) == *old(self) && r is None
                    } else {
                        &&& final(self)@ == recv_gossip(
                            old(self)@,
                            message.src@,
                            recipients.deep_view().to_set(),
                            vals@.to_set(),
                        )
                        &&& (r matches Some(resp) && is_reply_to(resp, message)
                            && (resp.body.payload matches BroadcastPayload::GossipOk {
                                messages: ms,
                            } && ms@ == vals@))
                    }
                },
                BroadcastPayload::GossipOk { messages: vals } => {
                    &&& final(self)@ == recv_gossip_ok(old(self)@, message.src@, vals@.to_set())
                    &&& r is None
                },
                _ => *final(self) == *old(self) && r is None,
            },
    {
        let reply: Option<BroadcastPayload> = match &message.body.payload {
            BroadcastPayload::Init(init) => {
                self.init = Some(init.clone());
                proof {
                    assert(self@ =~~= (GossipView {
                        node_id: Some(init.node_id@),
                        ..old(self)@
                    }));
                }
                Some(BroadcastPayload::InitOk)
            },
            BroadcastPayload::Broadcast { message: m } => {
                let m = *m;
                vec_set_insert(&mut self.messages, m);
                let mut single: Vec<usize> = Vec::new();
                single.push(m);
                merge_unknown_all(&mut self.neighbours, &single);
                proof {
                    let vals = single@.to_set();
                    lemma_unknown_map_pointwise(
                        *old(self),
                        *self,
                        |k: Seq<char>, s: Set<usize>| s.union(vals),
                    );
                    lemma_node_view_wf(*old(self));
                    assert(single@.to_set() =~= Set::empty().insert(m));
                    let target = recv_broadcast(old(self)@, m);
                    assert(self@.unknown =~= target.unknown);
                    assert(self@ =~~= target);
                }
                Some(BroadcastPayload::BroadcastOk)
            },
            BroadcastPayload::Read => {
                Some(BroadcastPayload::ReadOk { messages: clone_values(&self.messages) })
            },
            BroadcastPayload::Topology { topology } => {
                match &self.init {
                    Some(ip) => {
                        let id = ip.node_id.clone();
                        let mut i: usize = 0;
                        while i < topology.len() && !(topology[i].node.eq(&id))
                            invariant
                                0 <= i <= topology@.len(),
                                forall|j: int|
                                    0 <= j < i ==> (#[trigger] topology@[j]).node@ != id@,
                            decreases topology@.len() - i,
                        {
                            i += 1;
                        }
                        if i < topology.len() {
                            add_neighbour_names(&mut self.neighbours, &topology[i].neighbours);
                            proof {
                                lemma_topo_lookup_skip(topology@, id@, i as int);
                                assert(topology@.skip(i as int)[0] == topology@[i as int]);
                                assert(topo_lookup(topology@, id@) == Some(
                                    topology@[i as int].neighbours.deep_view(),
                                ));
                                lemma_view_after_add(
                                    *old(self),
                                    *self,
                                    topology@[i as int].neighbours.deep_view(),
                                );
                            }
                        } else {
                            proof {
                                lemma_topo_lookup_skip(topology@, id@, i as int);
                                assert(topology@.skip(topology@.len() as int)
                                    =~= Seq::<TopologyEntry>::empty());
                                assert(topo_lookup(topology@, id@) is None);
                            }
                        }
                    },
                    None => {},
                }
                Some(BroadcastPayload::TopologyOk)
            },
            BroadcastPayload::Gossip { recipients, messages: vals } => {
                if vals.len() == 0 {
                    None
                } else {
                    vec_set_merge(&mut self.messages, vals);
                    merge_unknown_except(&mut self.neighbours, recipients, &message.src, vals);
                    proof {
                        let rs = recipients.deep_view();
                        let vs = vals@.to_set();
                        let src = message.src@;
                        lemma_unknown_map_pointwise(
                            *old(self),
                            *self,
                            |k: Seq<char>, s: Set<usize>| merged_if(gossip_marks(k, rs, src), s, vs),
                        );
                        lemma_node_view_wf(*old(self));
                        let target = recv_gossip(old(self)@, src, rs.to_set(), vs);
                        assert forall|k: Seq<char>| self@.unknown.dom().contains(k)
                            implies self@.unknown[k] == target.unknown[k] by {
                            assert(old(self)@.neighbours.contains(k));
                            assert(gossip_marks(k, rs, src) == old(self)@.neighbours.difference(
                                rs.to_set(),
                            ).remove(src).contains(k));
                        }
                        assert(self@.unknown =~= target.unknown);
                        assert(self@ =~~= target);
                    }
                    Some(BroadcastPayload::GossipOk { messages: clone_values(vals) })
                }
            },
            BroadcastPayload::GossipOk { messages: vals } => {
                ack_unknown(&mut self.neighbours, &message.src, vals);
                proof {
                    let vs = vals@.to_set();
                    let src = message.src@;
                    lemma_unknown_map_pointwise(
                        *old(self),
                        *self,
                        |k: Seq<char>, s: Set<usize>| acked_if(k == src, s, vs),
                    );
                    lemma_node_view_wf(*old(self));
                    let target = recv_gossip_ok(old(self)@, src, vs);
                    assert(self@.unknown =~= target.unknown);
                    assert(self@ =~~= target);
                }
                None
            },
            BroadcastPayload::InitOk
            | BroadcastPayload::BroadcastOk
            | BroadcastPayload::ReadOk { .. }
            | BroadcastPayload::TopologyOk
            | BroadcastPayload::Unknown => None,
        };
        match reply {
            Some(payload) => Some(message.make_response(payload)),
            None => None,
        }
    }

    /// One gossip tick: send each neighbour exactly the values still
    /// unacknowledged by it, along with the full recipient list so receivers
    /// can bound their own rebroadcast; a neighbour owed nothing gets no
    /// envelope. The tick reads but never changes the node's state, so a
    /// dropped envelope costs nothing: the next tick resends it.
    pub fn handle_gossip(&self) -> (out: Vec<Message<BroadcastPayload>>)
        requires
            self.wf(),
        ensures
            match self@.node_id {
                None => out@.len() == 0,
                Some(id) => ({
                    let plan = tick_plan(self.neighbours@);
                    &&& out@.len() == plan.len()
                    &&& forall|i: int| 0 <= i < out@.len() ==> {
                        &&& (#[trigger] out@[i]).src@ == id
                        &&& out@[i].dst@ == tick_plan(self.neighbours@)[i].0
                        &&& out@[i].body.id is None
                        &&& out@[i].body.in_reply_to is None
                        &&& (out@[i].body.payload matches BroadcastPayload::Gossip {
                            recipients: rs,
                            messages: ms,
                        } && rs.deep_view() == self.names() && ms@ == tick_plan(
                            self.neighbours@,
                        )[i].1)
                    }
                }),
            },
    {
        let id = match &self.init {
            Some(ip) => ip.node_id.clone(),
            None => {
                return Vec::new();
            },
        };
        let mut names: Vec<String> = Vec::new();
        proof {
            assert(names.deep_view() =~= self.names().take(0));
        }
        let mut j: usize = 0;
        while j < self.neighbours.len()
            invariant
                0 <= j <= self.neighbours@.len(),
                names.deep_view() == self.names().take(j as int),
            decreases self.neighbours@.len() - j,
        {
            proof {
                assert(self.names().len() == self.neighbours@.len());
                assert(self.names().take(j as int).len() == j as int);
                assert(names.deep_view().len() == names@.len());
                assert(names@.len() == j as int);
            }
            names.push(self.neighbours[j].name.clone());
            proof {
                assert(names@.last() == self.neighbours@[j as int].name);
                assert(names.deep_view().len() == names@.len());
                assert(names@.len() == j + 1);
                assert forall|i: int| 0 <= i < j + 1 implies names.deep_view()[i]
                    == self.names().take(j + 1)[i] by {
                    if i < j {
                        assert(names.deep_view()[i] == self.names().take(j as int)[i]);
                    } else {
                        assert(names@[i] == self.neighbours@[j as int].name);
                    }
                }
                assert(names.deep_view() =~= self.names().take(j + 1));
            }
            j += 1;
        }
        proof {
            assert(self.names().take(self.names().len() as int) =~= self.names());
        }
        let mut out: Vec<Message<BroadcastPayload>> = Vec::new();
        let mut k: usize = 0;
        while k < self.neighbours.len()
            invariant
                0 <= k <= self.neighbours@.len(),
                self@.node_id == Some(id@),
                names.deep_view() == self.names(),
                out@.len() == tick_plan(self.neighbours@.take(k as int)).len(),
                forall|i: int| 0 <= i < out@.len() ==> {
                    &&& (#[trigger] out@[i]).src@ == id@
                    &&& out@[i].dst@ == tick_plan(self.neighbours@.take(k as int))[i].0
                    &&& out@[i].body.id is None
                    &&& out@[i].body.in_reply_to is None
                    &&& (out@[i].body.payload matches BroadcastPayload::Gossip {
                        recipients: rs,
                        messages: ms,
                    } && rs.deep_view() == self.names() && ms@ == tick_plan(
                        self.neighbours@.take(k as int),
                    )[i].1)
                },
            decreases self.neighbours@.len() - k,
        {
            proof {
                assert(self.neighbours@.take(k + 1).drop_last() =~= self.neighbours@.take(
                    k as int,
                ));
                assert(self.neighbours@.take(k + 1).last() == self.neighbours@[k as int]);
            }
            if self.neighbours[k].unknown.len() > 0 {
                let envelope = Message::new(
                    id.clone(),
                    self.neighbours[k].name.clone(),
                    BroadcastPayload::Gossip {
                        recipients: clone_names(&names),
                        messages: clone_values(&self.neighbours[k].unknown),
                    },
                );
                proof {
                    assert(cloned::<String>(self.neighbours@[k as int].name, envelope.dst));
                }
                out.push(envelope);
            }
            k += 1;
        }
        proof {
            assert(self.neighbours@.take(self.neighbours@.len() as int) =~= self.neighbours@);
        }
        out
    }
}

} // verus!
