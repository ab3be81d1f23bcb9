//! The network-level convergence argument for the gossip broadcast engine.
//!
//! A network is a map from node id to the node's `GossipView`; its state
//! changes only when an envelope is delivered, so a dropped `Gossip` or
//! `GossipOk` is simply the absence of a step, and the next tick — which
//! reads but never changes node state — offers the same envelope again.
//! The steps here are the transitions the verified handlers implement:
//! delivering a client broadcast, delivering one node's current tick
//! envelope to a neighbour (carrying exactly the values the sender still
//! holds unacknowledged for that neighbour), and delivering an
//! acknowledgment (which, since a node acknowledges exactly the values it
//! merged and its value set only grows, can only carry values the
//! acknowledging node knows).
//!
//! The argument: the *coverage* invariant — towards every neighbour that
//! still lacks a value some node holds that value in an unknown-set for it —
//! is established when the value is broadcast and preserved by every step,
//! including any finite number of drops and duplicate deliveries; and while
//! any node connected to a knowing node still lacks the value, some gossip
//! delivery is enabled that strictly grows the set of nodes knowing it.
//! Neighbour sets are taken as fixed, as they are once the topology has
//! been configured.

use vstd::prelude::*;

use crate::broadcast::{
    lemma_tick_plan_entry, lemma_unknown_at_index, recv_broadcast, recv_gossip, recv_gossip_ok,
    tick_plan, EfficientBroadcastNode, GossipView,
};

verus! {

/// Every node's unknown-sets are kept exactly for its neighbours.
pub open spec fn net_wf(net: Map<Seq<char>, GossipView>) -> bool {
    forall|n: Seq<char>| net.dom().contains(n) ==> (#[trigger] net[n]).wf()
}

/// A node only marks values it has itself seen, so everything in an
/// unknown-set is in its holder's value set.
pub open spec fn unknown_sub_messages(net: Map<Seq<char>, GossipView>) -> bool {
    forall|n: Seq<char>, b: Seq<char>|
        net.dom().contains(n) && net[n].neighbours.contains(b) ==> (#[trigger] net[n].unknown[b])
            <= net[n].messages
}

/// Coverage of the value `m`: wherever a node knowing `m` has a neighbour
/// that does not, some node still holds `m` in its unknown-set for that
/// neighbour, so the next delivered tick from it hands `m` over.
pub open spec fn covered(net: Map<Seq<char>, GossipView>, m: usize) -> bool {
    forall|a: Seq<char>, b: Seq<char>|
        net.dom().contains(a) && net.dom().contains(b) && net[a].messages.contains(m) && (
        #[trigger] net[a].neighbours.contains(b)) && !(#[trigger] net[b].messages.contains(m))
            ==> exists|x: Seq<char>|
            net.dom().contains(x) && net[x].neighbours.contains(b) && (#[trigger] net[x].unknown[
                b
            ]).contains(m)
}

/// Deliver a client broadcast of `m` to node `n`.
pub open spec fn step_broadcast(net: Map<Seq<char>, GossipView>, n: Seq<char>, m: usize) -> Map<
    Seq<char>,
    GossipView,
> {
    net.insert(n, recv_broadcast(net[n], m))
}

/// Deliver `a`'s current tick envelope to its neighbour `b`: the payload is
/// exactly what `a` still holds unacknowledged for `b`, and the recipient
/// list is `a`'s neighbour set.
pub open spec fn step_gossip(net: Map<Seq<char>, GossipView>, a: Seq<char>, b: Seq<char>) -> Map<
    Seq<char>,
    GossipView,
> {
    net.insert(b, recv_gossip(net[b], a, net[a].neighbours, net[a].unknown[b]))
}

/// Deliver to `a` an acknowledgment from `b` carrying `vals`. A node
/// acknowledges exactly what it merged, and value sets only grow, so any
/// acknowledgment in flight from `b` carries values `b` knows; the lemmas
/// require that of `vals`.
pub open spec fn step_ack(
    net: Map<Seq<char>, GossipView>,
    a: Seq<char>,
    b: Seq<char>,
    vals: Set<usize>,
) -> Map<Seq<char>, GossipView> {
    net.insert(a, recv_gossip_ok(net[a], b, vals))
}

/// The nodes that know `m`.
pub open spec fn knowers(net: Map<Seq<char>, GossipView>, m: usize) -> Set<Seq<char>> {
    Set::new(|n: Seq<char>| net.dom().contains(n) && net[n].messages.contains(m))
}

/// A neighbour that is owed values receives, in the node's tick, one
/// envelope carrying exactly the obligation the model's gossip step
/// delivers.
pub proof fn lemma_tick_carries_obligation(n: EfficientBroadcastNode, b: Seq<char>)
    requires
        n.wf(),
        n@.neighbours.contains(b),
        n@.unknown[b] != Set::<usize>::empty(),
    ensures
        exists|j: int|
            0 <= j < tick_plan(n.neighbours@).len() && (#[trigger] tick_plan(n.neighbours@)[j]).0
                == b && tick_plan(n.neighbours@)[j].1.to_set() == n@.unknown[b],
{
    assert(n.names().to_set().contains(b));
    let i = choose|i: int| 0 <= i < n.names().len() && n.names()[i] == b;
    lemma_unknown_at_index(n, i);
    assert(n@.unknown[b] == n.neighbours@[i].unknown@.to_set());
    if n.neighbours@[i].unknown@.len() == 0 {
        assert(n.neighbours@[i].unknown@.to_set() =~= Set::<usize>::empty());
    }
    lemma_tick_plan_entry(n.neighbours@, i);
    let j = choose|j: int|
        0 <= j < tick_plan(n.neighbours@).len() && (#[trigger] tick_plan(n.neighbours@)[j]) == (
            n.neighbours@[i].name@,
            n.neighbours@[i].unknown@,
        );
    assert(tick_plan(n.neighbours@)[j].0 == b);
    assert(tick_plan(n.neighbours@)[j].1.to_set() == n@.unknown[b]);
}

/// Before anyone knows `m`, coverage of `m` holds vacuously.
pub proof fn lemma_initial_covered(net: Map<Seq<char>, GossipView>, m: usize)
    requires
        forall|n: Seq<char>| net.dom().contains(n) ==> !(#[trigger] net[n].messages.contains(m)),
    ensures
        covered(net, m),
{
}

/// Delivering a broadcast preserves the invariants, and when it carries `m`
/// itself it establishes coverage of `m`: the origin marks `m` unknown to
/// every one of its neighbours.
pub proof fn lemma_step_broadcast_preserves(
    net: Map<Seq<char>, GossipView>,
    n: Seq<char>,
    mb: usize,
    m: usize,
)
    requires
        net_wf(net),
        unknown_sub_messages(net),
        covered(net, m),
        net.dom().contains(n),
    ensures
        net_wf(step_broadcast(net, n, mb)),
        unknown_sub_messages(step_broadcast(net, n, mb)),
        covered(step_broadcast(net, n, mb), m),
        step_broadcast(net, n, mb)[n].messages.contains(mb),
        forall|q: Seq<char>|
            net.dom().contains(q) ==> (#[trigger] net[q].messages) <= step_broadcast(
                net,
                n,
                mb,
            )[q].messages,
        step_broadcast(net, n, mb).dom() == net.dom(),
{
    let post = step_broadcast(net, n, mb);
    let v = net[n];
    let w = post[n];
    assert(w.wf()) by {
        assert(w.unknown.dom() =~= v.unknown.dom());
    }
    assert forall|q: Seq<char>, b: Seq<char>|
        post.dom().contains(q) && post[q].neighbours.contains(b) implies (#[trigger] post[q].unknown[
        b
    ]) <= post[q].messages by {
        if q == n {
            assert(v.unknown[b] <= v.messages);
        }
    }
    assert forall|a: Seq<char>, b: Seq<char>|
        post.dom().contains(a) && post.dom().contains(b) && post[a].messages.contains(m) && (
        #[trigger] post[a].neighbours.contains(b)) && !(#[trigger] post[b].messages.contains(
        m,
    )) implies exists|x: Seq<char>|
        post.dom().contains(x) && post[x].neighbours.contains(b) && (#[trigger] post[x].unknown[
            b
        ]).contains(m) by {
        assert(!net[b].messages.contains(m));
        if a == n && m == mb {
            assert(post[n].unknown[b].contains(m));
            assert(post.dom().contains(n) && post[n].neighbours.contains(b));
        } else {
            assert(net[a].messages.contains(m));
            let x = choose|x: Seq<char>|
                net.dom().contains(x) && net[x].neighbours.contains(b) && (#[trigger] net[x].unknown[
                    b
                ]).contains(m);
            assert(post[x].unknown[b].contains(m));
        }
    }
    assert(post.dom() =~= net.dom());
}

/// Delivering a gossip envelope preserves the invariants and monotonicity,
/// and hands the receiver everything the sender still held unacknowledged.
pub proof fn lemma_step_gossip_preserves(
    net: Map<Seq<char>, GossipView>,
    a: Seq<char>,
    b: Seq<char>,
    m: usize,
)
    requires
        net_wf(net),
        unknown_sub_messages(net),
        covered(net, m),
        net.dom().contains(a),
        net.dom().contains(b),
        net[a].neighbours.contains(b),
    ensures
        net_wf(step_gossip(net, a, b)),
        unknown_sub_messages(step_gossip(net, a, b)),
        covered(step_gossip(net, a, b), m),
        forall|q: Seq<char>|
            net.dom().contains(q) ==> (#[trigger] net[q].messages) <= step_gossip(
                net,
                a,
                b,
            )[q].messages,
        step_gossip(net, a, b).dom() == net.dom(),
        net[a].unknown[b].contains(m) ==> step_gossip(net, a, b)[b].messages.contains(m),
{
    let post = step_gossip(net, a, b);
    let payload = net[a].unknown[b];
    let v = net[b];
    let w = post[b];
    assert(w.wf()) by {
        assert(w.unknown.dom() =~= v.unknown.dom());
    }
    assert forall|q: Seq<char>, c: Seq<char>|
        post.dom().contains(q) && post[q].neighbours.contains(c) implies (#[trigger] post[q].unknown[
        c
    ]) <= post[q].messages by {
        if q == b {
            assert(v.unknown[c] <= v.messages);
            assert forall|y: usize| post[b].unknown[c].contains(y) implies post[b].messages.contains(
                y,
            ) by {
                if !v.unknown[c].contains(y) {
                    assert(payload.contains(y));
                }
            }
        }
    }
    if net[a].unknown[b].contains(m) {
        assert(w.messages.contains(m));
    }
    assert(payload <= net[a].messages);
    assert forall|q: Seq<char>, c: Seq<char>|
        post.dom().contains(q) && post.dom().contains(c) && post[q].messages.contains(m) && (
        #[trigger] post[q].neighbours.contains(c)) && !(#[trigger] post[c].messages.contains(
        m,
    )) implies exists|x: Seq<char>|
        post.dom().contains(x) && post[x].neighbours.contains(c) && (#[trigger] post[x].unknown[
            c
        ]).contains(m) by {
        assert(c != b || !v.messages.contains(m));
        assert(!net[c].messages.contains(m));
        if q == b && !v.messages.contains(m) {
            // b is a fresh knower of m: the payload carried m.
            assert(payload.contains(m));
            if v.neighbours.difference(net[a].neighbours).remove(a).contains(c) {
                // b itself took on the obligation towards c.
                assert(post[b].unknown[c].contains(m));
            } else if c == a {
                // a only sends values it knows, so c == a knows m: no
                // obligation.
                assert(net[c].messages.contains(m));
            } else {
                // c was among the sender's recipients: the sender knows m,
                // and the pre-state coverage of the edge from it to c
                // supplies the witness, untouched by this step.
                assert(net[a].neighbours.contains(c));
                assert(net[a].messages.contains(m));
                let x = choose|x: Seq<char>|
                    net.dom().contains(x) && net[x].neighbours.contains(c) && (#[trigger] net[x].unknown[
                        c
                    ]).contains(m);
                if x == b {
                    assert(post[b].unknown[c].contains(m));
                } else {
                    assert(post[x].unknown[c].contains(m));
                }
            }
        } else {
            // q already knew m; the pre-state witness survives, because the
            // step only grows unknown-sets.
            assert(net[q].messages.contains(m));
            let x = choose|x: Seq<char>|
                net.dom().contains(x) && net[x].neighbours.contains(c) && (#[trigger] net[x].unknown[
                    c
                ]).contains(m);
            if x == b {
                assert(post[b].unknown[c].contains(m));
            } else {
                assert(post[x].unknown[c].contains(m));
            }
        }
    }
    assert(post.dom() =~= net.dom());
}

/// Delivering an acknowledgment preserves the invariants: it clears only
/// obligations towards a node that already knows the acknowledged values.
pub proof fn lemma_step_ack_preserves(
    net: Map<Seq<char>, GossipView>,
    a: Seq<char>,
    b: Seq<char>,
    vals: Set<usize>,
    m: usize,
)
    requires
        net_wf(net),
        unknown_sub_messages(net),
        covered(net, m),
        net.dom().contains(a),
        net.dom().contains(b),
        vals <= net[b].messages,
    ensures
        net_wf(step_ack(net, a, b, vals)),
        unknown_sub_messages(step_ack(net, a, b, vals)),
        covered(step_ack(net, a, b, vals), m),
        forall|q: Seq<char>|
            net.dom().contains(q) ==> (#[trigger] net[q].messages) <= step_ack(
                net,
                a,
                b,
                vals,
            )[q].messages,
        step_ack(net, a, b, vals).dom() == net.dom(),
{
    let post = step_ack(net, a, b, vals);
    let v = net[a];
    let w = post[a];
    assert(w.wf()) by {
        assert(w.unknown.dom() =~= v.unknown.dom());
    }
    assert forall|q: Seq<char>, c: Seq<char>|
        post.dom().contains(q) && post[q].neighbours.contains(c) implies (#[trigger] post[q].unknown[
        c
    ]) <= post[q].messages by {
        if q == a {
            assert(v.unknown[c] <= v.messages);
        }
    }
    assert forall|q: Seq<char>, c: Seq<char>|
        post.dom().contains(q) && post.dom().contains(c) && post[q].messages.contains(m) && (
        #[trigger] post[q].neighbours.contains(c)) && !(#[trigger] post[c].messages.contains(
        m,
    )) implies exists|x: Seq<char>|
        post.dom().contains(x) && post[x].neighbours.contains(c) && (#[trigger] post[x].unknown[
            c
        ]).contains(m) by {
        assert(net[q].messages.contains(m));
        assert(!net[c].messages.contains(m));
        let x = choose|x: Seq<char>|
            net.dom().contains(x) && net[x].neighbours.contains(c) && (#[trigger] net[x].unknown[
                c
            ]).contains(m);
        if x == a && v.unknown.dom().contains(b) && c == b {
            // The cleared entry was a witness towards b; but vals is known
            // to b, so m, still missing at c == b, was not cleared.
            assert(!vals.contains(m));
            assert(post[a].unknown[b].contains(m));
        } else {
            assert(post[x].unknown[c].contains(m));
        }
    }
    assert(post.dom() =~= net.dom());
}

/// Along any path from a node that knows `m`, if the far end still lacks
/// `m` there is an edge from the knowing side into a node that lacks `m`
/// with a live obligation: a gossip delivery stands ready to hand `m` over.
pub proof fn lemma_boundary(net: Map<Seq<char>, GossipView>, m: usize, p: Seq<Seq<char>>) -> (r: (
    Seq<char>,
    Seq<char>,
))
    requires
        covered(net, m),
        p.len() >= 1,
        forall|i: int| 0 <= i < p.len() ==> net.dom().contains(#[trigger] p[i]),
        forall|i: int| 0 < i < p.len() ==> net[p[i - 1]].neighbours.contains(#[trigger] p[i]),
        net[p[0]].messages.contains(m),
        !net[p[p.len() - 1]].messages.contains(m),
    ensures
        net.dom().contains(r.0),
        net.dom().contains(r.1),
        net[r.0].neighbours.contains(r.1),
        net[r.0].unknown[r.1].contains(m),
        !net[r.1].messages.contains(m),
    decreases p.len(),
{
    if net[p[1]].messages.contains(m) {
        let rest = p.drop_first();
        assert forall|i: int| 0 < i < rest.len() implies net[rest[i - 1]].neighbours.contains(
            #[trigger] rest[i],
        ) by {
            assert(rest[i] == p[i + 1]);
            assert(rest[i - 1] == p[i]);
        }
        lemma_boundary(net, m, rest)
    } else {
        let x = choose|x: Seq<char>|
            net.dom().contains(x) && net[x].neighbours.contains(p[1]) && (#[trigger] net[x].unknown[
                p[1]
            ]).contains(m);
        (x, p[1])
    }
}

/// Gossip convergence, one delivery at a time: while some node on a path
/// from a knowing node still lacks `m`, a single enabled gossip delivery
/// strictly grows the set of nodes that know `m`, and the invariants
/// survive, so the argument can be repeated until every connected node
/// knows `m` — any finite number of dropped envelopes only delays the step,
/// since the obligation stays until acknowledged and every tick re-offers
/// it.
pub proof fn lemma_convergence_step(net: Map<Seq<char>, GossipView>, m: usize, p: Seq<Seq<char>>) -> (r: (
    Seq<char>,
    Seq<char>,
))
    requires
        net_wf(net),
        unknown_sub_messages(net),
        covered(net, m),
        p.len() >= 1,
        forall|i: int| 0 <= i < p.len() ==> net.dom().contains(#[trigger] p[i]),
        forall|i: int| 0 < i < p.len() ==> net[p[i - 1]].neighbours.contains(#[trigger] p[i]),
        net[p[0]].messages.contains(m),
        !net[p[p.len() - 1]].messages.contains(m),
    ensures
        net.dom().contains(r.0),
        net.dom().contains(r.1),
        net[r.0].neighbours.contains(r.1),
        net_wf(step_gossip(net, r.0, r.1)),
        unknown_sub_messages(step_gossip(net, r.0, r.1)),
        covered(step_gossip(net, r.0, r.1), m),
        knowers(step_gossip(net, r.0, r.1), m) == knowers(net, m).insert(r.1),
        !knowers(net, m).contains(r.1),
        net.dom().finite() ==> knowers(step_gossip(net, r.0, r.1), m).finite() && knowers(
            step_gossip(net, r.0, r.1),
            m,
        ).len() == knowers(net, m).len() + 1,
{
    let (x, b) = lemma_boundary(net, m, p);
    lemma_step_gossip_preserves(net, x, b, m);
    let post = step_gossip(net, x, b);
    assert(post[b].messages.contains(m));
    assert(knowers(post, m) =~= knowers(net, m).insert(b));
    if net.dom().finite() {
        assert(knowers(net, m) <= net.dom());
        vstd::set_lib::lemma_set_subset_finite(net.dom(), knowers(net, m));
    }
    (x, b)
}

/// On a finite network, each delivery of the lemma above grows the knowing
/// set by one, so after at most as many delivered ticks as there are nodes,
/// every node on a path from the origin knows the value: convergence in a
/// bounded number of ticks, whatever finite set of envelopes was dropped in
/// between.
pub proof fn lemma_knowers_bounded(net: Map<Seq<char>, GossipView>, m: usize)
    requires
        net.dom().finite(),
    ensures
        knowers(net, m).finite(),
        knowers(net, m).len() <= net.dom().len(),
{
    assert(knowers(net, m) <= net.dom());
    vstd::set_lib::lemma_set_subset_finite(net.dom(), knowers(net, m));
    vstd::set_lib::lemma_len_subset(knowers(net, m), net.dom());
}

} // verus!
