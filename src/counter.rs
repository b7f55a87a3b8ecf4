//! Counter replication: each node counts what it was asked to add, pushes its
//! own count to every peer on each tick, and answers reads with its own count
//! plus the last count reported by each peer.
use vstd::prelude::*;

use crate::gossip::names;
use crate::message::{reply_id, reply_id_of, Handler, Message, Payload};

verus! {

/// Payloads of the counter protocol.
pub enum Counter {
    Add { delta: usize },
    AddOk { in_reply_to: usize },
    Read,
    ReadOk { value: usize, in_reply_to: usize },
    Current { value: usize },
}

impl View for Counter {
    type V = Counter;

    open spec fn view(&self) -> Counter {
        *self
    }
}

/// Events raised by the node's own runtime.
pub enum Internal {
    TriggerDispatch,
    TerminateDispatcher,
}

/// One event of a counter node: a message from outside or an internal event.
pub enum ExternalInternal {
    External(Message<Counter>),
    Internal(Internal),
}

/// Sum of the counts of `entries`.
pub open spec fn sum_counts(entries: Seq<(String, usize)>) -> nat
    decreases entries.len(),
{
    if entries.len() == 0 {
        0
    } else {
        entries[0].1 as nat + sum_counts(entries.drop_first())
    }
}

/// Whether the names of `entries` are pairwise distinct.
pub open spec fn distinct_keys(entries: Seq<(String, usize)>) -> bool {
    forall|i: int, j: int|
        0 <= i < entries.len() && 0 <= j < entries.len() && i != j ==> entries[i].0@ != entries[j].0@
}

/// Whether some entry of `entries` is named `k`.
pub open spec fn listed(entries: Seq<(String, usize)>, k: Seq<char>) -> bool {
    exists|i: int| 0 <= i < entries.len() && entries[i].0@ == k
}

/// Whether `k` is among the first `n` names of `ids` and differs from `own`.
pub open spec fn other_among(ids: Seq<String>, n: int, k: Seq<char>, own: Seq<char>) -> bool {
    k != own && exists|m: int| 0 <= m < n && ids[m]@ == k
}

/// The map from each name of `entries` to its count.
pub open spec fn count_map(entries: Seq<(String, usize)>) -> Map<Seq<char>, usize> {
    Map::new(
        |k: Seq<char>| listed(entries, k),
        |k: Seq<char>| entries[choose|i: int| 0 <= i < entries.len() && entries[i].0@ == k].1,
    )
}

/// The destinations of `out`, in order.
pub open spec fn destinations(out: Seq<Message<Counter>>) -> Seq<Seq<char>> {
    out.map_values(|m: Message<Counter>| m.dst@)
}

/// The names of `members` other than `own`, in order.
pub open spec fn others(members: Seq<Seq<char>>, own: Seq<char>) -> Seq<Seq<char>> {
    members.filter(differs_from(own))
}

/// The test that a name is not `own`.
pub open spec fn differs_from(own: Seq<char>) -> spec_fn(Seq<char>) -> bool {
    |n: Seq<char>| n != own
}

/// Appending a name to a list appends it to the names other than `own`
/// exactly when it differs from `own`.
pub proof fn lemma_others_push(members: Seq<Seq<char>>, n: Seq<char>, own: Seq<char>)
    ensures
        others(members.push(n), own) == if n != own {
            others(members, own).push(n)
        } else {
            others(members, own)
        },
{
    members.lemma_filter_push(n, differs_from(own));
}

/// Whether `m` pushes `value` from `own` with no request id.
pub open spec fn current_from(m: Message<Counter>, own: Seq<char>, value: usize) -> bool {
    &&& m.src@ == own
    &&& m.body.msg_id is None
    &&& m.body.data == (Counter::Current { value })
}

/// State of one counter node.
pub struct CounterNode {
    node_id: String,
    all_node_ids: Vec<String>,
    current_count: usize,
    other_node_count_map: Vec<(String, usize)>,
    gossip_trigger_task: bool,
}

impl CounterNode {
    /// The node's own id.
    pub closed spec fn id(self) -> Seq<char> {
        self.node_id@
    }

    /// The membership list the node was built with.
    pub closed spec fn members(self) -> Seq<Seq<char>> {
        names(self.all_node_ids@)
    }

    /// This node's own count.
    pub closed spec fn local(self) -> usize {
        self.current_count
    }

    /// The last count reported by each known peer.
    pub open spec fn peer_values(self) -> Map<Seq<char>, usize> {
        count_map(self.entries())
    }

    /// Each known peer with its last reported count, one entry per peer.
    pub closed spec fn entries(self) -> Seq<(String, usize)> {
        self.other_node_count_map@
    }

    /// The value a read answers: the own count plus every peer's last count.
    pub open spec fn total(self) -> nat {
        self.local() as nat + sum_counts(self.entries())
    }

    /// Whether the periodic timer of this node is still wanted.
    pub closed spec fn timer_live(self) -> bool {
        self.gossip_trigger_task
    }

    pub open spec fn wf(self) -> bool {
        distinct_keys(self.entries())
    }

    /// Whether handling `event` stays within machine integers.
    pub open spec fn fits(self, event: ExternalInternal) -> bool {
        match event {
            ExternalInternal::External(m) => match m.body.data {
                Counter::Add { delta } => self.local() + delta <= usize::MAX,
                Counter::Read => self.total() <= usize::MAX,
                _ => true,
            },
            _ => true,
        }
    }
}

/// Counts that are all zero sum to zero.
pub proof fn lemma_sum_zero(entries: Seq<(String, usize)>)
    requires
        forall|i: int| 0 <= i < entries.len() ==> (#[trigger] entries[i]).1 == 0,
    ensures
        sum_counts(entries) == 0,
    decreases entries.len(),
{
    if entries.len() > 0 {
        assert(entries[0].1 == 0);
        lemma_sum_zero(entries.drop_first());
    }
}

/// Changing one count changes the sum by the difference.
pub proof fn lemma_sum_update(entries: Seq<(String, usize)>, i: int, v: usize)
    requires
        0 <= i < entries.len(),
    ensures
        sum_counts(entries.update(i, (entries[i].0, v))) == sum_counts(entries) - entries[i].1 + v,
    decreases entries.len(),
{
    let updated = entries.update(i, (entries[i].0, v));
    if i > 0 {
        lemma_sum_update(entries.drop_first(), i - 1, v);
        assert(updated.drop_first() =~= entries.drop_first().update(i - 1, (entries[i].0, v)));
    } else {
        assert(updated.drop_first() =~= entries.drop_first());
    }
}

/// With distinct names, changing the count at one position changes the map at
/// that name only.
pub proof fn lemma_count_map_update(entries: Seq<(String, usize)>, i: int, v: usize)
    requires
        0 <= i < entries.len(),
        distinct_keys(entries),
    ensures
        distinct_keys(entries.update(i, (entries[i].0, v))),
        count_map(entries.update(i, (entries[i].0, v))) == count_map(entries).insert(entries[i].0@, v),
{
    let updated = entries.update(i, (entries[i].0, v));
    let before = count_map(entries);
    let after = count_map(updated);
    assert forall|k: Seq<char>| after.contains_key(k) <==> before.insert(entries[i].0@, v).contains_key(k) by {
        if exists|j: int| 0 <= j < entries.len() && entries[j].0@ == k {
            let j = choose|j: int| 0 <= j < entries.len() && entries[j].0@ == k;
            assert(updated[j].0@ == k);
        }
        if exists|j: int| 0 <= j < updated.len() && updated[j].0@ == k {
            let j = choose|j: int| 0 <= j < updated.len() && updated[j].0@ == k;
            assert(entries[j].0@ == k);
        }
        assert(updated[i].0@ == entries[i].0@);
    }
    assert forall|k: Seq<char>| #[trigger] after.contains_key(k) implies after[k] == before.insert(entries[i].0@, v)[k] by {
        let j = choose|j: int| 0 <= j < updated.len() && updated[j].0@ == k;
        if k == entries[i].0@ {
            assert(j == i);
        } else {
            let m = choose|m: int| 0 <= m < entries.len() && entries[m].0@ == k;
            assert(m == j);
        }
    }
    assert(after =~= before.insert(entries[i].0@, v));
}

/// Position of the entry named `k`.
fn find_key(entries: &Vec<(String, usize)>, k: &String) -> (r: Option<usize>)
    ensures
        match r {
            Some(i) => i < entries@.len() && entries@[i as int].0@ == k@,
            None => forall|j: int| 0 <= j < entries@.len() ==> entries@[j].0@ != k@,
        },
{
    let mut i: usize = 0;
    while i < entries.len()
        invariant
            i <= entries.len(),
            forall|j: int| 0 <= j < i ==> entries@[j].0@ != k@,
        decreases entries.len() - i,
    {
        if entries[i].0 == *k {
            return Some(i);
        }
        i = i + 1;
    }
    None
}

impl CounterNode {
    /// A node named `node_id` in the cluster `all_node_ids`, knowing every
    /// other member with a count of zero.
    pub fn new(node_id: String, all_node_ids: Vec<String>) -> (r: Self)
        ensures
            r.wf(),
            r.id() == node_id@,
            r.members() == names(all_node_ids@),
            r.local() == 0,
            r.total() == 0,
            r.timer_live(),
            forall|k: Seq<char>|
                r.peer_values().contains_key(k) <==> (names(all_node_ids@).contains(k) && k != node_id@),
            forall|k: Seq<char>| #[trigger] r.peer_values().contains_key(k) ==> r.peer_values()[k] == 0,
    {
        let mut entries: Vec<(String, usize)> = Vec::new();
        let mut i: usize = 0;
        while i < all_node_ids.len()
            invariant
                i <= all_node_ids.len(),
                distinct_keys(entries@),
                forall|j: int| 0 <= j < entries@.len() ==> (#[trigger] entries@[j]).1 == 0,
                forall|k: Seq<char>|
                    #[trigger] listed(entries@, k) == other_among(all_node_ids@, i as int, k, node_id@),
            decreases all_node_ids.len() - i,
        {
            let ghost before = entries@;
            let name = &all_node_ids[i];
            if *name != node_id {
                match find_key(&entries, name) {
                    Some(j) => {
                        assert(listed(before, name@));
                    },
                    None => {
                        entries.push((name.clone(), 0));
                        assert(entries@ == before.push((entries@.last().0, 0usize)));
                        assert(distinct_keys(entries@));
                        assert forall|k: Seq<char>|
                            #[trigger] listed(entries@, k) == (listed(before, k) || k == name@) by {
                            if listed(before, k) {
                                let j = choose|j: int| 0 <= j < before.len() && before[j].0@ == k;
                                assert(entries@[j].0@ == k);
                            }
                            if k == name@ {
                                assert(entries@[before.len() as int].0@ == k);
                            }
                            if listed(entries@, k) && k != name@ {
                                let j = choose|j: int| 0 <= j < entries@.len() && entries@[j].0@ == k;
                                assert(before[j].0@ == k);
                            }
                        }
                    },
                }
            }
            let ghost prev = i as int;
            i = i + 1;
            assert forall|k: Seq<char>|
                #[trigger] listed(entries@, k) == other_among(all_node_ids@, i as int, k, node_id@) by {
                if other_among(all_node_ids@, i as int, k, node_id@) && !other_among(all_node_ids@, prev, k, node_id@) {
                    assert(all_node_ids@[prev]@ == k);
                }
                if other_among(all_node_ids@, prev, k, node_id@) {
                    let m = choose|m: int| 0 <= m < prev && all_node_ids@[m]@ == k;
                    assert(0 <= m < i);
                }
                if k == all_node_ids@[prev]@ && k != node_id@ {
                    assert(other_among(all_node_ids@, i as int, k, node_id@));
                }
                if other_among(all_node_ids@, i as int, k, node_id@) && k != all_node_ids@[prev]@ {
                    let m = choose|m: int| 0 <= m < i && all_node_ids@[m]@ == k;
                    assert(m < prev);
                }
            }
        }
        proof {
            let r_names = names(all_node_ids@);
            assert forall|k: Seq<char>|
                #[trigger] listed(entries@, k) == (r_names.contains(k) && k != node_id@) by {
                if r_names.contains(k) {
                    let m = choose|m: int| 0 <= m < r_names.len() && r_names[m] == k;
                    assert(all_node_ids@[m]@ == k);
                }
                if other_among(all_node_ids@, all_node_ids@.len() as int, k, node_id@) {
                    let m = choose|m: int| 0 <= m < all_node_ids@.len() && all_node_ids@[m]@ == k && k != node_id@;
                    assert(r_names[m] == k);
                }
            }
        }
        proof {
            lemma_sum_zero(entries@);
        }
        CounterNode {
            node_id,
            all_node_ids,
            current_count: 0,
            other_node_count_map: entries,
            gossip_trigger_task: true,
        }
    }
}

impl CounterNode {
    /// Whether handling `event` can lower the value a read answers: only a
    /// `Current` from a known peer reporting less than that peer's last count.
    pub open spec fn lowers(self, event: ExternalInternal) -> bool {
        match event {
            ExternalInternal::External(m) => match m.body.data {
                Counter::Current { value } => self.peer_values().contains_key(m.src@) && value
                    < self.peer_values()[m.src@],
                _ => false,
            },
            _ => false,
        }
    }

    /// Whether handling `event` stays within machine integers.
    pub fn fits_event(&self, event: &ExternalInternal) -> (r: bool)
        ensures
            r == self.fits(*event),
    {
        match event {
            ExternalInternal::External(m) => match &m.body.data {
                Counter::Add { delta } => *delta <= usize::MAX - self.current_count,
                Counter::Read => self.checked_total().is_some(),
                _ => true,
            },
            _ => true,
        }
    }

    /// The value a read answers, or `None` where it exceeds `usize`.
    fn checked_total(&self) -> (r: Option<usize>)
        ensures
            match r {
                Some(t) => t == self.total(),
                None => self.total() > usize::MAX,
            },
    {
        let entries = &self.other_node_count_map;
        let mut acc: usize = self.current_count;
        let mut i: usize = 0;
        assert(entries@.subrange(0, entries@.len() as int) =~= entries@);
        while i < entries.len()
            invariant
                i <= entries.len(),
                acc + sum_counts(entries@.subrange(i as int, entries@.len() as int)) == self.total(),
            decreases entries.len() - i,
        {
            let ghost rest = entries@.subrange(i as int, entries@.len() as int);
            assert(rest.drop_first() =~= entries@.subrange(i + 1, entries@.len() as int));
            let c = entries[i].1;
            if c > usize::MAX - acc {
                return None;
            }
            acc = acc + c;
            i = i + 1;
        }
        assert(entries@.subrange(i as int, entries@.len() as int).len() == 0);
        Some(acc)
    }

    /// Records `value` as the last count of `sender`, if `sender` is a known peer.
    fn record_current(&mut self, sender: &String, value: usize)
        requires
            old(self).wf(),
        ensures
            final(self).wf(),
            final(self).node_id == old(self).node_id,
            final(self).all_node_ids == old(self).all_node_ids,
            final(self).current_count == old(self).current_count,
            final(self).gossip_trigger_task == old(self).gossip_trigger_task,
            final(self).peer_values() == if old(self).peer_values().contains_key(sender@) {
                old(self).peer_values().insert(sender@, value)
            } else {
                old(self).peer_values()
            },
            old(self).peer_values().contains_key(sender@) ==> final(self).total() == old(self).total()
                - old(self).peer_values()[sender@] + value,
            !old(self).peer_values().contains_key(sender@) ==> final(self).total() == old(self).total(),
    {
        match find_key(&self.other_node_count_map, sender) {
            Some(i) => {
                let ghost entries = self.other_node_count_map@;
                proof {
                    lemma_count_map_update(entries, i as int, value);
                    lemma_sum_update(entries, i as int, value);
                    let j = choose|j: int| 0 <= j < entries.len() && entries[j].0@ == sender@;
                    assert(j == i);
                }
                self.other_node_count_map[i].1 = value;
                assert(self.other_node_count_map@ == entries.update(i as int, (entries[i as int].0, value)));
            },
            None => {},
        }
    }

    /// One `Current` message with this node's count to every other member.
    fn dispatch(&self) -> (out: Vec<Message<Counter>>)
        ensures
            destinations(out@) == others(self.members(), self.id()),
            forall|i: int| 0 <= i < out@.len() ==> current_from(#[trigger] out@[i], self.id(), self.local()),
    {
        let ids = &self.all_node_ids;
        let mut out: Vec<Message<Counter>> = Vec::new();
        let mut i: usize = 0;
        while i < ids.len()
            invariant
                i <= ids.len(),
                destinations(out@) == others(names(ids@.subrange(0, i as int)), self.id()),
                forall|k: int| 0 <= k < out@.len() ==> current_from(#[trigger] out@[k], self.id(), self.local()),
            decreases ids.len() - i,
        {
            let ghost prefix = names(ids@.subrange(0, i as int));
            let ghost own = self.id();
            proof {
                assert(names(ids@.subrange(0, i + 1)) =~= prefix.push(ids@[i as int]@));
                lemma_others_push(prefix, ids@[i as int]@, own);
            }
            if ids[i] != self.node_id {
                let data = Counter::Current { value: self.current_count };
                let m = Message::new(self.node_id.clone(), ids[i].clone(), Payload::new(data, None));
                let ghost before = out@;
                out.push(m);
                assert(destinations(out@) =~= destinations(before).push(ids@[i as int]@));
            }
            i = i + 1;
        }
        assert(ids@.subrange(0, i as int) =~= ids@);
        out
    }
}

/// Whether handling `event` took `before` to `after` without lowering the
/// value a read answers, as it does for every event that does not lower it.
pub open spec fn keeps_total(before: CounterNode, event: ExternalInternal, after: CounterNode) -> bool {
    !before.lowers(event) ==> after.total() >= before.total()
}

/// Over a run of handled events in which no known peer ever reports less
/// than its last count, a later read never answers less than an earlier one.
pub proof fn lemma_reads_never_decrease(states: Seq<CounterNode>, events: Seq<ExternalInternal>, i: int, j: int)
    requires
        states.len() == events.len() + 1,
        forall|k: int| 0 <= k < events.len() ==> keeps_total(states[k], #[trigger] events[k], states[k + 1]),
        forall|k: int| 0 <= k < events.len() ==> !states[k].lowers(#[trigger] events[k]),
        0 <= i <= j < states.len(),
    ensures
        states[j].total() >= states[i].total(),
    decreases j - i,
{
    if i < j {
        lemma_reads_never_decrease(states, events, i, j - 1);
        assert(keeps_total(states[j - 1], events[j - 1], states[j]));
        assert(!states[j - 1].lowers(events[j - 1]));
    }
}

impl Handler<ExternalInternal, Message<Counter>> for CounterNode {
    open spec fn accepts(&self, event: ExternalInternal) -> bool {
        self.wf() && self.fits(event)
    }

    fn handle(&mut self, event: ExternalInternal) -> (out: Vec<Message<Counter>>)
        ensures
            final(self).wf(),
            final(self).id() == old(self).id(),
            final(self).members() == old(self).members(),
            final(self).local() >= old(self).local(),
            keeps_total(*old(self), event, *final(self)),
            match event {
                ExternalInternal::External(m) => match m.body.data {
                    Counter::Add { delta } => {
                        &&& final(self).local() == old(self).local() + delta
                        &&& final(self).peer_values() == old(self).peer_values()
                        &&& final(self).total() == old(self).total() + delta
                        &&& final(self).timer_live() == old(self).timer_live()
                        &&& out@.len() == 1
                        &&& out@[0].answers(m)
                        &&& out@[0].body.data == (Counter::AddOk {
                            in_reply_to: reply_id(m.body.msg_id),
                        })
                    },
                    Counter::Read => {
                        &&& *final(self) == *old(self)
                        &&& out@.len() == 1
                        &&& out@[0].answers(m)
                        &&& out@[0].body.data == (Counter::ReadOk {
                            value: old(self).total() as usize,
                            in_reply_to: reply_id(m.body.msg_id),
                        })
                    },
                    Counter::Current { value } => {
                        &&& final(self).local() == old(self).local()
                        &&& final(self).timer_live() == old(self).timer_live()
                        &&& final(self).peer_values() == if old(self).peer_values().contains_key(m.src@) {
                            old(self).peer_values().insert(m.src@, value)
                        } else {
                            old(self).peer_values()
                        }
                        &&& final(self).total() == if old(self).peer_values().contains_key(m.src@) {
                            old(self).total() - old(self).peer_values()[m.src@] + value
                        } else {
                            old(self).total() as int
                        }
                        &&& out@.len() == 0
                    },
                    _ => {
                        &&& *final(self) == *old(self)
                        &&& out@.len() == 0
                    },
                },
                ExternalInternal::Internal(Internal::TriggerDispatch) => {
                    &&& *final(self) == *old(self)
                    &&& destinations(out@) == others(old(self).members(), old(self).id())
                    &&& forall|i: int|
                        0 <= i < out@.len() ==> current_from(#[trigger] out@[i], old(self).id(), old(self).local())
                },
                ExternalInternal::Internal(Internal::TerminateDispatcher) => {
                    &&& final(self).local() == old(self).local()
                    &&& final(self).peer_values() == old(self).peer_values()
                    &&& final(self).total() == old(self).total()
                    &&& !final(self).timer_live()
                    &&& out@.len() == 0
                },
            },
    {
        match event {
            ExternalInternal::External(m) => {
                let msg_id = m.body.msg_id;
                match &m.body.data {
                    Counter::Add { delta } => {
                        self.current_count = self.current_count + *delta;
                        let data = Counter::AddOk { in_reply_to: reply_id_of(msg_id) };
                        vec![Message::to_response(m, data)]
                    },
                    Counter::Read => {
                        let value = match self.checked_total() {
                            Some(t) => t,
                            None => 0,
                        };
                        let data = Counter::ReadOk { value, in_reply_to: reply_id_of(msg_id) };
                        vec![Message::to_response(m, data)]
                    },
                    Counter::Current { value } => {
                        self.record_current(&m.src, *value);
                        Vec::new()
                    },
                    _ => Vec::new(),
                }
            },
            ExternalInternal::Internal(Internal::TriggerDispatch) => self.dispatch(),
            ExternalInternal::Internal(Internal::TerminateDispatcher) => {
                self.gossip_trigger_task = false;
                Vec::new()
            },
        }
    }
}

impl CounterNode {
    /// The last count reported by `name`, if it is a known peer.
    pub fn peer_value(&self, name: &String) -> (r: Option<usize>)
        requires
            self.wf(),
        ensures
            r == if self.peer_values().contains_key(name@) {
                Some(self.peer_values()[name@])
            } else {
                None::<usize>
            },
    {
        match find_key(&self.other_node_count_map, name) {
            Some(i) => {
                proof {
                    let entries = self.other_node_count_map@;
                    let j = choose|j: int| 0 <= j < entries.len() && entries[j].0@ == name@;
                    assert(j == i);
                }
                Some(self.other_node_count_map[i].1)
            },
            None => None,
        }
    }

    /// This node's own count.
    pub fn local_value(&self) -> (r: usize)
        ensures
            r == self.local(),
    {
        self.current_count
    }

    /// Whether the periodic timer of this node is still wanted.
    pub fn is_timer_live(&self) -> (r: bool)
        ensures
            r == self.timer_live(),
    {
        self.gossip_trigger_task
    }
}

} // verus!
