//! Set-union gossip broadcast: each node records the values it has seen and
//! periodically sends its whole set to its assigned neighbours.
use vstd::prelude::*;

use crate::message::{reply_id, reply_id_of, Handler, Message, Payload};

verus! {

/// Payloads of the broadcast protocol, including the two internal events
/// (`TriggerGossip` from the timer, `Quit` at end of input).
pub enum Broadcast {
    Broadcast { message: usize },
    BroadcastOk { in_reply_to: usize },
    Read,
    ReadOk { messages: Vec<usize>, in_reply_to: usize },
    Topology { topology: Vec<(String, Vec<String>)> },
    TopologyOk { in_reply_to: usize },
    TriggerGossip,
    Gossip { seen: Vec<usize> },
    Quit,
}

/// The mathematical form of a broadcast payload.
pub enum BroadcastV {
    Broadcast { message: usize },
    BroadcastOk { in_reply_to: usize },
    Read,
    ReadOk { messages: Seq<usize>, in_reply_to: usize },
    Topology { topology: Seq<(Seq<char>, Seq<Seq<char>>)> },
    TopologyOk { in_reply_to: usize },
    TriggerGossip,
    Gossip { seen: Seq<usize> },
    Quit,
}

/// The mathematical form of a topology: each node name with its neighbours.
pub open spec fn topology_view(t: Seq<(String, Vec<String>)>) -> Seq<(Seq<char>, Seq<Seq<char>>)> {
    t.map_values(|e: (String, Vec<String>)| (e.0@, names(e.1@)))
}

impl View for Broadcast {
    type V = BroadcastV;

    open spec fn view(&self) -> BroadcastV {
        match self {
            Broadcast::Broadcast { message } => BroadcastV::Broadcast { message: *message },
            Broadcast::BroadcastOk { in_reply_to } => BroadcastV::BroadcastOk { in_reply_to: *in_reply_to },
            Broadcast::Read => BroadcastV::Read,
            Broadcast::ReadOk { messages, in_reply_to } => BroadcastV::ReadOk {
                messages: messages@,
                in_reply_to: *in_reply_to,
            },
            Broadcast::Topology { topology } => BroadcastV::Topology { topology: topology_view(topology@) },
            Broadcast::TopologyOk { in_reply_to } => BroadcastV::TopologyOk { in_reply_to: *in_reply_to },
            Broadcast::TriggerGossip => BroadcastV::TriggerGossip,
            Broadcast::Gossip { seen } => BroadcastV::Gossip { seen: seen@ },
            Broadcast::Quit => BroadcastV::Quit,
        }
    }
}

/// The views of a list of node names.
pub open spec fn names(v: Seq<String>) -> Seq<Seq<char>> {
    v.map_values(|s: String| s@)
}

/// Index of the first entry of `topology` keyed by `id`, if any.
pub open spec fn first_entry_for(topology: Seq<(String, Vec<String>)>, id: Seq<char>, i: int) -> bool {
    &&& 0 <= i < topology.len()
    &&& topology[i].0@ == id
    &&& forall|j: int| 0 <= j < i ==> topology[j].0@ != id
}

/// State of one broadcast node.
pub struct BroadcastNode {
    node_id: String,
    received_messages: Vec<usize>,
    topology: Vec<String>,
    quit: bool,
}

impl BroadcastNode {
    /// The node's own id.
    pub closed spec fn id(self) -> Seq<char> {
        self.node_id@
    }

    /// Every value this node has seen.
    pub closed spec fn seen(self) -> Set<usize> {
        self.received_messages@.to_set()
    }

    /// The neighbours this node gossips to, in order.
    pub closed spec fn neighbors(self) -> Seq<Seq<char>> {
        names(self.topology@)
    }

    /// Whether the node has been told to stop its timer.
    pub closed spec fn stopped(self) -> bool {
        self.quit
    }

    pub closed spec fn wf(self) -> bool {
        self.received_messages@.no_duplicates()
    }

    pub fn new(node_id: String) -> (r: Self)
        ensures
            r.wf(),
            r.id() == node_id@,
            r.seen() == Set::<usize>::empty(),
            r.neighbors() == Seq::<Seq<char>>::empty(),
            !r.stopped(),
    {
        BroadcastNode { node_id, received_messages: Vec::new(), topology: Vec::new(), quit: false }
    }

    /// Whether the timer of this node should stop.
    pub fn is_stopped(&self) -> (r: bool)
        ensures
            r == self.stopped(),
    {
        self.quit
    }

    /// Every value seen so far, each once.
    pub fn seen_values(&self) -> (r: Vec<usize>)
        requires
            self.wf(),
        ensures
            r@.to_set() == self.seen(),
            r@.no_duplicates(),
    {
        copy_values(&self.received_messages)
    }

    /// Records `v` as seen.
    fn record(&mut self, v: usize)
        requires
            old(self).wf(),
        ensures
            final(self).wf(),
            final(self).seen() == old(self).seen().insert(v),
            final(self).node_id == old(self).node_id,
            final(self).topology == old(self).topology,
            final(self).quit == old(self).quit,
    {
        let ghost before = self.received_messages@;
        if !contains_value(&self.received_messages, v) {
            self.received_messages.push(v);
            proof {
                Seq::lemma_to_set_insert_commutes(before, v);
                assert(before.push(v) =~= before + seq![v]);
            }
            assert(self.received_messages@ == before.push(v));
            assert(self.received_messages@.no_duplicates()) by {
                assert forall|i: int, j: int|
                    0 <= i < self.received_messages@.len() && 0 <= j < self.received_messages@.len()
                        && i != j implies self.received_messages@[i] != self.received_messages@[j] by {
                    if i == before.len() as int {
                        assert(before.contains(before[j]));
                    } else if j == before.len() as int {
                        assert(before.contains(before[i]));
                    }
                }
            }
        } else {
            assert(before.to_set().contains(v));
            assert(before.to_set().insert(v) =~= before.to_set());
        }
    }

    /// Merges every value of `values` into the seen set.
    fn merge(&mut self, values: &Vec<usize>)
        requires
            old(self).wf(),
        ensures
            final(self).wf(),
            final(self).seen() == old(self).seen().union(values@.to_set()),
            final(self).node_id == old(self).node_id,
            final(self).topology == old(self).topology,
            final(self).quit == old(self).quit,
    {
        let ghost start = self.seen();
        let mut i: usize = 0;
        while i < values.len()
            invariant
                self.wf(),
                i <= values.len(),
                self.seen() == start.union(values@.subrange(0, i as int).to_set()),
                self.node_id == old(self).node_id,
                self.topology == old(self).topology,
                self.quit == old(self).quit,
            decreases values.len() - i,
        {
            let v = values[i];
            self.record(v);
            proof {
                let pre = values@.subrange(0, i as int);
                assert(values@.subrange(0, i + 1) =~= pre + seq![v]);
                Seq::lemma_to_set_insert_commutes(pre, v);
            }
            i = i + 1;
            assert(self.seen() =~= start.union(values@.subrange(0, i as int).to_set()));
        }
        assert(values@.subrange(0, i as int) == values@);
    }
}

/// Whether `m` is the gossip message that `node` sends to `dst`: its whole
/// seen set, with no request id.
pub open spec fn gossip_to(m: Message<Broadcast>, node: BroadcastNode, dst: Seq<char>) -> bool {
    &&& m.src@ == node.id()
    &&& m.dst@ == dst
    &&& m.body.msg_id is None
    &&& match m.body.data {
        Broadcast::Gossip { seen } => seen@.to_set() == node.seen() && seen@.no_duplicates(),
        _ => false,
    }
}

/// Whether `after` is `before` once the gossiped values `values` are merged in.
pub open spec fn merged(before: BroadcastNode, after: BroadcastNode, values: Seq<usize>) -> bool {
    &&& after.id() == before.id()
    &&& after.seen() == before.seen().union(values.to_set())
    &&& after.neighbors() == before.neighbors()
    &&& after.stopped() == before.stopped()
}

/// Merging the same gossip a second time changes nothing: the seen set is the
/// one that merging it once gave.
pub proof fn lemma_gossip_idempotent(
    before: BroadcastNode,
    once: BroadcastNode,
    twice: BroadcastNode,
    values: Seq<usize>,
)
    requires
        merged(before, once, values),
        merged(once, twice, values),
    ensures
        twice.seen() == once.seen(),
{
    assert(twice.seen() =~= once.seen());
}

/// A node that merges the gossip a neighbour sent it has then seen every value
/// the neighbour had seen, and keeps every value it had itself.
pub proof fn lemma_gossip_covers_sender(
    sender: BroadcastNode,
    m: Message<Broadcast>,
    before: BroadcastNode,
    after: BroadcastNode,
)
    requires
        gossip_to(m, sender, before.id()),
        match m.body.data {
            Broadcast::Gossip { seen } => merged(before, after, seen@),
            _ => false,
        },
    ensures
        sender.seen().subset_of(after.seen()),
        before.seen().subset_of(after.seen()),
{
}

impl Handler<Message<Broadcast>, Message<Broadcast>> for BroadcastNode {
    open spec fn accepts(&self, message: Message<Broadcast>) -> bool {
        self.wf()
    }

    fn handle(&mut self, message: Message<Broadcast>) -> (out: Vec<Message<Broadcast>>)
        ensures
            final(self).wf(),
            final(self).id() == old(self).id(),
            match message.body.data {
                Broadcast::Broadcast { message: v } => {
                    &&& final(self).seen() == old(self).seen().insert(v)
                    &&& final(self).neighbors() == old(self).neighbors()
                    &&& final(self).stopped() == old(self).stopped()
                    &&& out@.len() == 1
                    &&& out@[0].answers(message)
                    &&& out@[0].body.data == (Broadcast::BroadcastOk {
                        in_reply_to: reply_id(message.body.msg_id),
                    })
                },
                Broadcast::Read => {
                    &&& *final(self) == *old(self)
                    &&& out@.len() == 1
                    &&& out@[0].answers(message)
                    &&& match out@[0].body.data {
                        Broadcast::ReadOk { messages, in_reply_to } => {
                            &&& messages@.to_set() == old(self).seen()
                            &&& messages@.no_duplicates()
                            &&& in_reply_to == reply_id(message.body.msg_id)
                        },
                        _ => false,
                    }
                },
                Broadcast::Topology { topology } => {
                    &&& final(self).seen() == old(self).seen()
                    &&& final(self).stopped() == old(self).stopped()
                    &&& if exists|i: int|
                        0 <= i < topology@.len() && topology@[i].0@ == old(self).id() {
                        exists|i: int|
                            first_entry_for(topology@, old(self).id(), i)
                                && final(self).neighbors() == names(topology@[i].1@)
                    } else {
                        final(self).neighbors() == old(self).neighbors()
                    }
                    &&& out@.len() == 1
                    &&& out@[0].answers(message)
                    &&& out@[0].body.data == (Broadcast::TopologyOk {
                        in_reply_to: reply_id(message.body.msg_id),
                    })
                },
                Broadcast::Gossip { seen } => {
                    &&& merged(*old(self), *final(self), seen@)
                    &&& out@.len() == 0
                },
                Broadcast::TriggerGossip => {
                    &&& *final(self) == *old(self)
                    &&& out@.len() == old(self).neighbors().len()
                    &&& forall|i: int|
                        0 <= i < out@.len() ==> gossip_to(
                            #[trigger] out@[i],
                            *old(self),
                            old(self).neighbors()[i],
                        )
                },
                Broadcast::Quit => {
                    &&& final(self).seen() == old(self).seen()
                    &&& final(self).neighbors() == old(self).neighbors()
                    &&& final(self).stopped()
                    &&& out@.len() == 0
                },
                _ => {
                    &&& *final(self) == *old(self)
                    &&& out@.len() == 1
                    &&& out@[0].answers(message)
                    &&& out@[0].body.data == message.body.data
                },
            },
    {
        let Message { src, dst, body } = message;
        let Payload { data, msg_id } = body;
        match data {
            Broadcast::Broadcast { message: v } => {
                self.record(v);
                let data = Broadcast::BroadcastOk { in_reply_to: reply_id_of(msg_id) };
                vec![Message::new(dst, src, Payload::new(data, msg_id))]
            },
            Broadcast::Read => {
                let messages = self.seen_values();
                let data = Broadcast::ReadOk { messages, in_reply_to: reply_id_of(msg_id) };
                vec![Message::new(dst, src, Payload::new(data, msg_id))]
            },
            Broadcast::Topology { topology } => {
                let mut topology = topology;
                match find_entry(&topology, &self.node_id) {
                    Some(i) => {
                        let entry = topology.remove(i);
                        self.topology = entry.1;
                    },
                    None => {},
                }
                let data = Broadcast::TopologyOk { in_reply_to: reply_id_of(msg_id) };
                vec![Message::new(dst, src, Payload::new(data, msg_id))]
            },
            Broadcast::Gossip { seen } => {
                self.merge(&seen);
                Vec::new()
            },
            Broadcast::TriggerGossip => self.gossip(),
            Broadcast::Quit => {
                self.quit = true;
                Vec::new()
            },
            other => vec![Message::new(dst, src, Payload::new(other, msg_id))],
        }
    }
}

impl BroadcastNode {
    /// One gossip message per neighbour, each carrying the whole seen set.
    fn gossip(&self) -> (out: Vec<Message<Broadcast>>)
        requires
            self.wf(),
        ensures
            out@.len() == self.neighbors().len(),
            forall|i: int|
                0 <= i < out@.len() ==> gossip_to(#[trigger] out@[i], *self, self.neighbors()[i]),
    {
        let mut out: Vec<Message<Broadcast>> = Vec::new();
        let mut i: usize = 0;
        while i < self.topology.len()
            invariant
                self.wf(),
                i <= self.topology.len(),
                out@.len() == i,
                forall|k: int| 0 <= k < i ==> gossip_to(#[trigger] out@[k], *self, self.neighbors()[k]),
            decreases self.topology.len() - i,
        {
            let data = Broadcast::Gossip { seen: self.seen_values() };
            let m = Message::new(self.node_id.clone(), self.topology[i].clone(), Payload::new(data, None));
            out.push(m);
            i = i + 1;
        }
        out
    }
}

/// Position of the first entry of `topology` keyed by `id`.
fn find_entry(topology: &Vec<(String, Vec<String>)>, id: &String) -> (r: Option<usize>)
    ensures
        match r {
            Some(i) => first_entry_for(topology@, id@, i as int),
            None => forall|j: int| 0 <= j < topology@.len() ==> topology@[j].0@ != id@,
        },
{
    let mut i: usize = 0;
    while i < topology.len()
        invariant
            i <= topology.len(),
            forall|j: int| 0 <= j < i ==> topology@[j].0@ != id@,
        decreases topology.len() - i,
    {
        if topology[i].0 == *id {
            return Some(i);
        }
        i = i + 1;
    }
    None
}

/// Whether `v` occurs in `values`.
fn contains_value(values: &Vec<usize>, v: usize) -> (r: bool)
    ensures
        r == values@.contains(v),
{
    let mut i: usize = 0;
    while i < values.len()
        invariant
            i <= values.len(),
            forall|j: int| 0 <= j < i ==> values@[j] != v,
        decreases values.len() - i,
    {
        if values[i] == v {
            return true;
        }
        i = i + 1;
    }
    false
}

/// A fresh vector holding the same values in the same order.
fn copy_values(values: &Vec<usize>) -> (r: Vec<usize>)
    ensures
        r@ == values@,
{
    let mut r: Vec<usize> = Vec::new();
    let mut i: usize = 0;
    while i < values.len()
        invariant
            i <= values.len(),
            r@ == values@.subrange(0, i as int),
        decreases values.len() - i,
    {
        r.push(values[i]);
        i = i + 1;
    }
    r
}

} // verus!
