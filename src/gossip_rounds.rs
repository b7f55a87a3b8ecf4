//! Convergence of full-state gossip. One round lets every node merge the seen
//! set of every node that gossips to it: `lemma_handled_round` shows that a
//! node which handles the tick gossip of each node listing it as a neighbour
//! ends where the round model puts it. Over a graph in which every node
//! reaches every other in at most `d` hops, `d` rounds leave every node with
//! the union of all the values that were ever recorded.
use vstd::prelude::*;

use crate::gossip::{gossip_to, merged, Broadcast, BroadcastNode};
use crate::message::Message;

verus! {

/// Node `v`'s seen set after one round: its own values and those of every
/// node `u` with an edge `(u, v)`.
pub open spec fn round_at(sets: Seq<Set<usize>>, edges: Set<(int, int)>, v: int) -> Set<usize> {
    Set::new(
        |x: usize|
            sets[v].contains(x) || exists|u: int|
                0 <= u < sets.len() && #[trigger] edges.contains((u, v)) && sets[u].contains(x),
    )
}

/// Every node's seen set after one round.
pub open spec fn round(sets: Seq<Set<usize>>, edges: Set<(int, int)>) -> Seq<Set<usize>> {
    Seq::new(sets.len(), |v: int| round_at(sets, edges, v))
}

/// Every node's seen set after `k` rounds.
pub open spec fn after_rounds(sets: Seq<Set<usize>>, edges: Set<(int, int)>, k: nat) -> Seq<Set<usize>>
    decreases k,
{
    if k == 0 {
        sets
    } else {
        round(after_rounds(sets, edges, (k - 1) as nat), edges)
    }
}

/// Every value that some node holds.
pub open spec fn all_values(sets: Seq<Set<usize>>) -> Set<usize> {
    Set::new(|x: usize| exists|u: int| 0 <= u < sets.len() && #[trigger] sets[u].contains(x))
}

/// Whether `p` is a walk of `n` nodes along `edges` from `p[0]` to its last node.
pub open spec fn is_walk(p: Seq<int>, edges: Set<(int, int)>, n: int) -> bool {
    &&& p.len() >= 1
    &&& forall|i: int| 0 <= i < p.len() ==> 0 <= #[trigger] p[i] < n
    &&& forall|i: int| 0 <= i < p.len() - 1 ==> edges.contains((#[trigger] p[i], p[i + 1]))
}

/// Whether a walk of at most `d` hops leads from `u` to `v`.
pub open spec fn joined(edges: Set<(int, int)>, n: int, d: nat, u: int, v: int) -> bool {
    exists|p: Seq<int>| #[trigger] is_walk(p, edges, n) && p[0] == u && p.last() == v && p.len() <= d + 1
}

/// Whether every node reaches every node of `0..n` in at most `d` hops.
pub open spec fn reaches_within(edges: Set<(int, int)>, n: int, d: nat) -> bool {
    forall|u: int, v: int| 0 <= u < n && 0 <= v < n ==> #[trigger] joined(edges, n, d, u, v)
}

proof fn lemma_rounds_shape(sets: Seq<Set<usize>>, edges: Set<(int, int)>, k: nat)
    ensures
        after_rounds(sets, edges, k).len() == sets.len(),
        forall|v: int|
            0 <= v < sets.len() ==> #[trigger] after_rounds(sets, edges, k)[v] <= all_values(sets),
    decreases k,
{
    if k > 0 {
        lemma_rounds_shape(sets, edges, (k - 1) as nat);
        let prev = after_rounds(sets, edges, (k - 1) as nat);
        assert forall|v: int| 0 <= v < sets.len() implies #[trigger] after_rounds(sets, edges, k)[v]
            <= all_values(sets) by {
            assert forall|x: usize| round_at(prev, edges, v).contains(x) implies all_values(sets).contains(x) by {
                if prev[v].contains(x) {
                    assert(prev[v] <= all_values(sets));
                } else {
                    let u = choose|u: int| 0 <= u < prev.len() && #[trigger] edges.contains((u, v)) && prev[u].contains(x);
                    assert(prev[u] <= all_values(sets));
                }
            }
        }
    }
}

proof fn lemma_rounds_cover(sets: Seq<Set<usize>>, edges: Set<(int, int)>, k: nat, p: Seq<int>)
    requires
        is_walk(p, edges, sets.len() as int),
        p.len() <= k + 1,
    ensures
        sets[p[0]] <= after_rounds(sets, edges, k)[p.last()],
    decreases k,
{
    lemma_rounds_shape(sets, edges, k);
    if k > 0 {
        let prev = after_rounds(sets, edges, (k - 1) as nat);
        lemma_rounds_shape(sets, edges, (k - 1) as nat);
        let v = p.last();
        if p.len() == 1 {
            lemma_rounds_cover(sets, edges, (k - 1) as nat, p);
            assert(prev[v] <= round_at(prev, edges, v));
        } else {
            let q = p.drop_last();
            assert(is_walk(q, edges, sets.len() as int));
            lemma_rounds_cover(sets, edges, (k - 1) as nat, q);
            let w = q.last();
            assert(edges.contains((p[p.len() - 2], p[p.len() - 1])));
            assert forall|x: usize| prev[w].contains(x) implies round_at(prev, edges, v).contains(x) by {
                assert(edges.contains((w, v)));
            }
        }
    }
}

/// Gossip converges: where every node reaches every other in at most `d` hops,
/// after `d` rounds every node has seen exactly the union of what all nodes
/// had seen at the start.
pub proof fn lemma_gossip_converges(sets: Seq<Set<usize>>, edges: Set<(int, int)>, d: nat)
    requires
        reaches_within(edges, sets.len() as int, d),
    ensures
        after_rounds(sets, edges, d).len() == sets.len(),
        forall|v: int| 0 <= v < sets.len() ==> #[trigger] after_rounds(sets, edges, d)[v] == all_values(sets),
{
    lemma_rounds_shape(sets, edges, d);
    assert forall|v: int| 0 <= v < sets.len() implies #[trigger] after_rounds(sets, edges, d)[v] == all_values(sets) by {
        assert forall|x: usize| all_values(sets).contains(x) implies after_rounds(sets, edges, d)[v].contains(x) by {
            let u = choose|u: int| 0 <= u < sets.len() && #[trigger] sets[u].contains(x);
            assert(joined(edges, sets.len() as int, d, u, v));
            let p = choose|p: Seq<int>|
                #[trigger] is_walk(p, edges, sets.len() as int) && p[0] == u && p.last() == v && p.len() <= d + 1;
            lemma_rounds_cover(sets, edges, d, p);
        }
        assert(after_rounds(sets, edges, d)[v] =~= all_values(sets));
    }
}

/// The seen set of each node of a cluster.
pub open spec fn seen_sets(nodes: Seq<BroadcastNode>) -> Seq<Set<usize>> {
    Seq::new(nodes.len(), |i: int| nodes[i].seen())
}

/// The gossip graph of a cluster: an edge from `u` to `v` when `v`'s id is
/// among `u`'s neighbours, so that each tick of `u` sends its set to `v`.
pub open spec fn gossip_edges(nodes: Seq<BroadcastNode>) -> Set<(int, int)> {
    Set::new(
        |e: (int, int)|
            0 <= e.0 < nodes.len() && 0 <= e.1 < nodes.len() && nodes[e.0].neighbors().contains(nodes[e.1].id()),
    )
}

/// A cluster whose gossip graph joins every node to every other in at most
/// `d` hops: after `d` rounds of ticks and merges every node has seen the
/// union of all values that any node had recorded.
pub proof fn lemma_cluster_converges(nodes: Seq<BroadcastNode>, d: nat)
    requires
        reaches_within(gossip_edges(nodes), nodes.len() as int, d),
    ensures
        forall|v: int|
            0 <= v < nodes.len() ==> #[trigger] after_rounds(seen_sets(nodes), gossip_edges(nodes), d)[v]
                == all_values(seen_sets(nodes)),
{
    lemma_gossip_converges(seen_sets(nodes), gossip_edges(nodes), d);
}

/// Whether `chain` is the states of one node as it merges, in order, the
/// gossip messages `msgs`, where message `i` is what node `senders[i]` of
/// `nodes` wrote to it on a tick (as `handle` states for `TriggerGossip` and
/// `Gossip`).
pub open spec fn merges_from(
    nodes: Seq<BroadcastNode>,
    chain: Seq<BroadcastNode>,
    msgs: Seq<Message<Broadcast>>,
    senders: Seq<int>,
) -> bool {
    &&& chain.len() == msgs.len() + 1
    &&& senders.len() == msgs.len()
    &&& forall|i: int| 0 <= i < senders.len() ==> 0 <= #[trigger] senders[i] < nodes.len()
    &&& forall|i: int|
        0 <= i < msgs.len() ==> gossip_to(#[trigger] msgs[i], nodes[senders[i]], chain[0].id()) && match msgs[i].body.data {
            Broadcast::Gossip { seen } => merged(chain[i], chain[i + 1], seen@),
            _ => false,
        }
}

/// Every value that one of `senders` had seen.
pub open spec fn seen_by_any(nodes: Seq<BroadcastNode>, senders: Seq<int>) -> Set<usize> {
    Set::new(|x: usize| exists|i: int| 0 <= i < senders.len() && #[trigger] nodes[senders[i]].seen().contains(x))
}

proof fn lemma_merges_prefix(
    nodes: Seq<BroadcastNode>,
    chain: Seq<BroadcastNode>,
    msgs: Seq<Message<Broadcast>>,
    senders: Seq<int>,
    k: int,
)
    requires
        merges_from(nodes, chain, msgs, senders),
        0 <= k <= msgs.len(),
    ensures
        chain[k].id() == chain[0].id(),
        chain[k].seen() == chain[0].seen().union(seen_by_any(nodes, senders.subrange(0, k))),
    decreases k,
{
    if k > 0 {
        lemma_merges_prefix(nodes, chain, msgs, senders, k - 1);
        let i = k - 1;
        assert(gossip_to(msgs[i], nodes[senders[i]], chain[0].id()));
        let before = seen_by_any(nodes, senders.subrange(0, i));
        let after = seen_by_any(nodes, senders.subrange(0, k));
        assert forall|x: usize| after.contains(x) <==> before.contains(x) || nodes[senders[i]].seen().contains(x) by {
            if after.contains(x) {
                let j = choose|j: int| 0 <= j < k && #[trigger] nodes[senders.subrange(0, k)[j]].seen().contains(x);
                if j < i {
                    assert(senders.subrange(0, i)[j] == senders[j]);
                    assert(nodes[senders.subrange(0, i)[j]].seen().contains(x));
                }
            }
            if before.contains(x) {
                let j = choose|j: int| 0 <= j < i && #[trigger] nodes[senders.subrange(0, i)[j]].seen().contains(x);
                assert(senders.subrange(0, k)[j] == senders[j]);
                assert(nodes[senders.subrange(0, k)[j]].seen().contains(x));
            }
            if nodes[senders[i]].seen().contains(x) {
                assert(senders.subrange(0, k)[i] == senders[i]);
                assert(nodes[senders.subrange(0, k)[i]].seen().contains(x));
            }
        }
        assert(chain[k].seen() =~= chain[0].seen().union(after));
    }
}

/// One round of `handle` calls is one step of the round model: a node that
/// merges the tick gossip of exactly the nodes that list it as a neighbour
/// ends with the seen set that `round` gives it.
pub proof fn lemma_handled_round(
    nodes: Seq<BroadcastNode>,
    v: int,
    chain: Seq<BroadcastNode>,
    msgs: Seq<Message<Broadcast>>,
    senders: Seq<int>,
)
    requires
        0 <= v < nodes.len(),
        chain.len() > 0,
        chain[0] == nodes[v],
        merges_from(nodes, chain, msgs, senders),
        forall|u: int|
            0 <= u < nodes.len() ==> (gossip_edges(nodes).contains((u, v)) <==> exists|i: int|
                0 <= i < senders.len() && senders[i] == u),
    ensures
        chain.last().seen() == round(seen_sets(nodes), gossip_edges(nodes))[v],
{
    let n = msgs.len() as int;
    lemma_merges_prefix(nodes, chain, msgs, senders, n);
    assert(senders.subrange(0, n) =~= senders);
    let sets = seen_sets(nodes);
    let edges = gossip_edges(nodes);
    assert forall|x: usize| chain.last().seen().contains(x) <==> round_at(sets, edges, v).contains(x) by {
        if seen_by_any(nodes, senders).contains(x) {
            let i = choose|i: int| 0 <= i < senders.len() && #[trigger] nodes[senders[i]].seen().contains(x);
            let u = senders[i];
            assert(edges.contains((u, v)));
            assert(sets[u].contains(x));
        }
        if exists|u: int| 0 <= u < sets.len() && #[trigger] edges.contains((u, v)) && sets[u].contains(x) {
            let u = choose|u: int| 0 <= u < sets.len() && #[trigger] edges.contains((u, v)) && sets[u].contains(x);
            let i = choose|i: int| 0 <= i < senders.len() && senders[i] == u;
            assert(nodes[senders[i]].seen().contains(x));
        }
    }
    assert(chain.last().seen() =~= round_at(sets, edges, v));
}

} // verus!
