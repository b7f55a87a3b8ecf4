//! The wire form of every message kind: which tag names each payload, which
//! members it carries, and the decoders that read them back. Decoding is
//! strict: an unknown tag, or a member that is missing or of the wrong kind,
//! is a `ParseError`.
use vstd::prelude::*;

use crate::gossip::{names, topology_view, Broadcast, BroadcastV};
use crate::json::{get_str, get_strs, msg_id_of, str_field, strs_field, 
    envelope, envelope_v, fields_v, find_field, frame_of, get_num, get_nums, id_v, lookup, member, nums_field,
    nums_json, nums_of, nums_v, num_field, read_frame, strs_from, strs_json, strs_of, strs_v, Frame, Json, JsonV,
};
use crate::counter::Counter;
use crate::echo::{Echo, EchoV};
use crate::unique_id::{Generate, GenerateV};
use crate::message::{Init, InitV, Message, MessageV, ParseError, Payload};

verus! {

/// The member names of the wire format are pairwise distinct.
pub proof fn lemma_member_names()
    ensures
        "src"@ != "dest"@,
        "src"@ != "body"@,
        "dest"@ != "body"@,
        "type"@ != "msg_id"@,
        "message"@ != "msg_id"@,
        "messages"@ != "msg_id"@,
        "in_reply_to"@ != "msg_id"@,
        "topology"@ != "msg_id"@,
        "seen"@ != "msg_id"@,
        "value"@ != "msg_id"@,
        "delta"@ != "msg_id"@,
        "node_id"@ != "msg_id"@,
        "node_ids"@ != "msg_id"@,
        "message"@ != "type"@,
        "messages"@ != "type"@,
        "in_reply_to"@ != "type"@,
        "topology"@ != "type"@,
        "seen"@ != "type"@,
        "value"@ != "type"@,
        "delta"@ != "type"@,
        "node_id"@ != "type"@,
        "node_ids"@ != "type"@,
        "messages"@ != "in_reply_to"@,
        "value"@ != "in_reply_to"@,
        "node_id"@ != "node_ids"@,
        "echo"@ != "msg_id"@,
        "echo"@ != "type"@,
        "echo"@ != "in_reply_to"@,
        "id"@ != "msg_id"@,
        "id"@ != "type"@,
        "id"@ != "in_reply_to"@,
{
    reveal_strlit("echo");
    reveal_strlit("id");
    assert("echo"@.len() == 4);
    assert("id"@.len() == 2);
    reveal_strlit("src");
    reveal_strlit("dest");
    reveal_strlit("body");
    reveal_strlit("type");
    reveal_strlit("msg_id");
    reveal_strlit("message");
    reveal_strlit("messages");
    reveal_strlit("in_reply_to");
    reveal_strlit("topology");
    reveal_strlit("seen");
    reveal_strlit("value");
    reveal_strlit("delta");
    reveal_strlit("node_id");
    reveal_strlit("node_ids");
    assert("src"@.len() == 3);
    assert("dest"@.len() == 4);
    assert("body"@.len() == 4);
    assert("type"@.len() == 4);
    assert("msg_id"@.len() == 6);
    assert("message"@.len() == 7);
    assert("messages"@.len() == 8);
    assert("in_reply_to"@.len() == 11);
    assert("topology"@.len() == 8);
    assert("seen"@.len() == 4);
    assert("value"@.len() == 5);
    assert("delta"@.len() == 5);
    assert("node_id"@.len() == 7);
    assert("node_ids"@.len() == 8);
    assert("dest"@[0] != "body"@[0]);
    assert("seen"@[0] != "type"@[0]);
    assert("echo"@[0] != "type"@[0]);
}

/// Whether `s` holds the text `lit`.
pub fn same_text(s: &String, lit: &str) -> (r: bool)
    ensures
        r == (s@ == lit@),
{
    let t = lit.to_owned();
    *s == t
}

/// The body members of an envelope that carries `fields` under `tag`.
pub open spec fn body_v(tag: Seq<char>, fields: Seq<(Seq<char>, JsonV)>, msg_id: Option<usize>) -> Seq<
    (Seq<char>, JsonV),
> {
    seq![("type"@, JsonV::Str(tag))] + fields + seq![("msg_id"@, id_v(msg_id))]
}

/// Whether no member of `fields` is named `key`.
pub open spec fn lacks(fields: Seq<(Seq<char>, JsonV)>, key: Seq<char>) -> bool {
    forall|i: int| 0 <= i < fields.len() ==> fields[i].0 != key
}

/// Looking a name up in two joined member lists finds it in the first list
/// if it is there, else in the second.
pub proof fn lemma_lookup_append(a: Seq<(Seq<char>, JsonV)>, b: Seq<(Seq<char>, JsonV)>, key: Seq<char>)
    ensures
        lookup(a + b, key) == match lookup(a, key) {
            Some(v) => Some(v),
            None => lookup(b, key),
        },
    decreases a.len(),
{
    if a.len() > 0 {
        assert((a + b).drop_first() =~= a.drop_first() + b);
        lemma_lookup_append(a.drop_first(), b, key);
    } else {
        assert(a + b =~= b);
    }
}

/// A name that no member has is not found.
pub proof fn lemma_lookup_lacks(a: Seq<(Seq<char>, JsonV)>, key: Seq<char>)
    requires
        lacks(a, key),
    ensures
        lookup(a, key) is None,
    decreases a.len(),
{
    if a.len() > 0 {
        lemma_lookup_lacks(a.drop_first(), key);
    }
}

/// An envelope built from a frame reads back as that frame.
pub proof fn lemma_frame_round_trip(
    src: Seq<char>,
    dst: Seq<char>,
    tag: Seq<char>,
    fields: Seq<(Seq<char>, JsonV)>,
    msg_id: Option<usize>,
)
    requires
        lacks(fields, "msg_id"@),
    ensures
        frame_of(envelope_v(src, dst, tag, fields, msg_id)) == Some(
            Frame { src, dst, tag, body: body_v(tag, fields, msg_id), msg_id },
        ),
        forall|k: Seq<char>| k != "type"@ && k != "msg_id"@ ==> lookup(body_v(tag, fields, msg_id), k) == lookup(fields, k),
{
    lemma_member_names();
    let top = envelope_v(src, dst, tag, fields, msg_id)->Obj_0;
    assert(lookup(top.drop_first(), "dest"@) == Some(JsonV::Str(dst)));
    assert(top.drop_first().drop_first()[0].0 == "body"@);
    assert(lookup(top.drop_first().drop_first(), "body"@) == Some(JsonV::Obj(body_v(tag, fields, msg_id))));
    let head = seq![("type"@, JsonV::Str(tag))];
    let tail = seq![("msg_id"@, id_v(msg_id))];
    assert(body_v(tag, fields, msg_id) == head + (fields + tail)) by {
        assert(head + fields + tail =~= head + (fields + tail));
    }
    lemma_lookup_append(head, fields + tail, "msg_id"@);
    lemma_lookup_append(fields, tail, "msg_id"@);
    lemma_lookup_lacks(fields, "msg_id"@);
    lemma_lookup_append(head, fields + tail, "type"@);
    let body = body_v(tag, fields, msg_id);
    assert(lookup(top, "src"@) == Some(JsonV::Str(src)));
    assert(lookup(top, "dest"@) == Some(JsonV::Str(dst)));
    assert(lookup(top.drop_first(), "body"@) == Some(JsonV::Obj(body)));
    assert(lookup(top, "body"@) == Some(JsonV::Obj(body)));
    assert(lookup(body, "type"@) == Some(JsonV::Str(tag)));
    assert(lookup(head.drop_first(), "msg_id"@) is None);
    assert(lookup(head, "msg_id"@) is None);
    assert(lookup(tail, "msg_id"@) == Some(id_v(msg_id)));
    assert(lookup(fields + tail, "msg_id"@) == Some(id_v(msg_id)));
    assert(lookup(body, "msg_id"@) == Some(id_v(msg_id)));
    assert(msg_id_of(body) == Some(msg_id));
    assert forall|k: Seq<char>| k != "type"@ && k != "msg_id"@ implies lookup(body_v(tag, fields, msg_id), k) == lookup(
        fields,
        k,
    ) by {
        lemma_lookup_append(head, fields + tail, k);
        lemma_lookup_append(fields, tail, k);
        assert(lookup(head.drop_first(), k) is None);
        assert(lookup(head, k) is None);
        assert(lookup(tail.drop_first(), k) is None);
        assert(lookup(tail, k) is None);
    }
}

/// A list of numbers reads back from its JSON array.
pub proof fn lemma_nums_round_trip(s: Seq<usize>)
    ensures
        nums_of(nums_v(s)->Arr_0) == Some(s),
{
    let items = nums_v(s)->Arr_0;
    assert(forall|i: int| 0 <= i < items.len() ==> items[i] is Num);
    assert(nums_of(items)->Some_0 =~= s);
}

/// A list of strings reads back from its JSON array.
pub proof fn lemma_strs_round_trip(s: Seq<Seq<char>>)
    ensures
        strs_of(strs_v(s)->Arr_0) == Some(s),
{
    let items = strs_v(s)->Arr_0;
    assert(forall|i: int| 0 <= i < items.len() ==> items[i] is Str);
    assert(strs_of(items)->Some_0 =~= s);
}

/// The JSON form of a topology: an object from each name to its neighbours.
pub open spec fn topology_v(t: Seq<(Seq<char>, Seq<Seq<char>>)>) -> JsonV {
    JsonV::Obj(Seq::new(t.len(), |i: int| (t[i].0, strs_v(t[i].1))))
}

/// The topology of the members `entries`, if each is an array of strings.
pub open spec fn topology_of(entries: Seq<(Seq<char>, JsonV)>) -> Option<Seq<(Seq<char>, Seq<Seq<char>>)>> {
    if forall|i: int| 0 <= i < entries.len() ==> entries[i].1 is Arr && strs_of(entries[i].1->Arr_0) is Some {
        Some(Seq::new(entries.len(), |i: int| (entries[i].0, strs_of(entries[i].1->Arr_0)->Some_0)))
    } else {
        None
    }
}

/// A topology member of `fields`.
pub open spec fn topology_field(fields: Seq<(Seq<char>, JsonV)>, key: Seq<char>) -> Option<
    Seq<(Seq<char>, Seq<Seq<char>>)>,
> {
    match lookup(fields, key) {
        Some(JsonV::Obj(entries)) => topology_of(entries),
        _ => None,
    }
}

/// A topology reads back from its JSON object.
pub proof fn lemma_topology_round_trip(t: Seq<(Seq<char>, Seq<Seq<char>>)>)
    ensures
        topology_of(topology_v(t)->Obj_0) == Some(t),
{
    let entries = topology_v(t)->Obj_0;
    assert forall|i: int| 0 <= i < entries.len() implies entries[i].1 is Arr && strs_of(entries[i].1->Arr_0) is Some by {
        lemma_strs_round_trip(t[i].1);
    }
    assert forall|i: int| 0 <= i < t.len() implies (#[trigger] topology_of(entries)->Some_0[i]) == t[i] by {
        lemma_strs_round_trip(t[i].1);
    }
    assert(topology_of(entries)->Some_0 =~= t);
}

/// The tag that names a broadcast payload on the wire.
pub open spec fn broadcast_tag(b: BroadcastV) -> Seq<char> {
    match b {
        BroadcastV::Broadcast { .. } => "broadcast"@,
        BroadcastV::BroadcastOk { .. } => "broadcast_ok"@,
        BroadcastV::Read => "read"@,
        BroadcastV::ReadOk { .. } => "read_ok"@,
        BroadcastV::Topology { .. } => "topology"@,
        BroadcastV::TopologyOk { .. } => "topology_ok"@,
        BroadcastV::TriggerGossip => "trigger_gossip"@,
        BroadcastV::Gossip { .. } => "gossip"@,
        BroadcastV::Quit => "quit"@,
    }
}

/// The body members of a broadcast payload, besides its tag and id.
pub open spec fn broadcast_fields(b: BroadcastV) -> Seq<(Seq<char>, JsonV)> {
    match b {
        BroadcastV::Broadcast { message } => seq![("message"@, JsonV::Num(message))],
        BroadcastV::BroadcastOk { in_reply_to } => seq![("in_reply_to"@, JsonV::Num(in_reply_to))],
        BroadcastV::ReadOk { messages, in_reply_to } => seq![
            ("messages"@, nums_v(messages)),
            ("in_reply_to"@, JsonV::Num(in_reply_to)),
        ],
        BroadcastV::Topology { topology } => seq![("topology"@, topology_v(topology))],
        BroadcastV::TopologyOk { in_reply_to } => seq![("in_reply_to"@, JsonV::Num(in_reply_to))],
        BroadcastV::Gossip { seen } => seq![("seen"@, nums_v(seen))],
        _ => seq![],
    }
}

/// The broadcast payload tagged `tag` with body members `body`, if well formed.
pub open spec fn broadcast_of(tag: Seq<char>, body: Seq<(Seq<char>, JsonV)>) -> Option<BroadcastV> {
    if tag == "broadcast"@ {
        match num_field(body, "message"@) {
            Some(message) => Some(BroadcastV::Broadcast { message }),
            None => None,
        }
    } else if tag == "broadcast_ok"@ {
        match num_field(body, "in_reply_to"@) {
            Some(in_reply_to) => Some(BroadcastV::BroadcastOk { in_reply_to }),
            None => None,
        }
    } else if tag == "read"@ {
        Some(BroadcastV::Read)
    } else if tag == "read_ok"@ {
        match (nums_field(body, "messages"@), num_field(body, "in_reply_to"@)) {
            (Some(messages), Some(in_reply_to)) => Some(BroadcastV::ReadOk { messages, in_reply_to }),
            _ => None,
        }
    } else if tag == "topology"@ {
        match topology_field(body, "topology"@) {
            Some(topology) => Some(BroadcastV::Topology { topology }),
            None => None,
        }
    } else if tag == "topology_ok"@ {
        match num_field(body, "in_reply_to"@) {
            Some(in_reply_to) => Some(BroadcastV::TopologyOk { in_reply_to }),
            None => None,
        }
    } else if tag == "trigger_gossip"@ {
        Some(BroadcastV::TriggerGossip)
    } else if tag == "gossip"@ {
        match nums_field(body, "seen"@) {
            Some(seen) => Some(BroadcastV::Gossip { seen }),
            None => None,
        }
    } else if tag == "quit"@ {
        Some(BroadcastV::Quit)
    } else {
        None
    }
}

/// The JSON form of a broadcast envelope.
pub open spec fn broadcast_json(m: MessageV<BroadcastV>) -> JsonV {
    envelope_v(m.src, m.dst, broadcast_tag(m.data), broadcast_fields(m.data), m.msg_id)
}

/// The broadcast envelope that `j` holds, if well formed.
pub open spec fn broadcast_message_of(j: JsonV) -> Option<MessageV<BroadcastV>> {
    match frame_of(j) {
        Some(f) => match broadcast_of(f.tag, f.body) {
            Some(data) => Some(MessageV { src: f.src, dst: f.dst, data, msg_id: f.msg_id }),
            None => None,
        },
        None => None,
    }
}

/// Decoding an encoded broadcast envelope gives back the same envelope.
pub proof fn lemma_broadcast_round_trip(m: MessageV<BroadcastV>)
    ensures
        broadcast_message_of(broadcast_json(m)) == Some(m),
{
    lemma_member_names();
    reveal_strlit("broadcast");
    reveal_strlit("broadcast_ok");
    reveal_strlit("read");
    reveal_strlit("read_ok");
    reveal_strlit("topology");
    reveal_strlit("topology_ok");
    reveal_strlit("trigger_gossip");
    reveal_strlit("gossip");
    reveal_strlit("quit");
    assert("broadcast"@.len() == 9);
    assert("broadcast_ok"@.len() == 12);
    assert("read"@.len() == 4);
    assert("read_ok"@.len() == 7);
    assert("topology"@.len() == 8);
    assert("topology_ok"@.len() == 11);
    assert("trigger_gossip"@.len() == 14);
    assert("gossip"@.len() == 6);
    assert("quit"@.len() == 4);
    assert("read"@[0] != "quit"@[0]);
    let fields = broadcast_fields(m.data);
    assert(lacks(fields, "msg_id"@)) by {
        match m.data {
            BroadcastV::ReadOk { .. } => {
                assert(fields[0].0 != "msg_id"@);
                assert(fields[1].0 != "msg_id"@);
            },
            _ => {},
        }
    }
    lemma_frame_round_trip(m.src, m.dst, broadcast_tag(m.data), fields, m.msg_id);
    let body = body_v(broadcast_tag(m.data), fields, m.msg_id);
    match m.data {
        BroadcastV::Broadcast { message } => {
            assert(lookup(body, "message"@) == lookup(fields, "message"@));
        },
        BroadcastV::BroadcastOk { in_reply_to } => {
            assert(lookup(body, "in_reply_to"@) == lookup(fields, "in_reply_to"@));
        },
        BroadcastV::ReadOk { messages, in_reply_to } => {
            assert(lookup(body, "messages"@) == lookup(fields, "messages"@));
            assert(lookup(body, "in_reply_to"@) == lookup(fields, "in_reply_to"@));
            assert(lookup(fields.drop_first(), "in_reply_to"@) == Some(JsonV::Num(in_reply_to)));
            lemma_nums_round_trip(messages);
        },
        BroadcastV::Topology { topology } => {
            assert(lookup(body, "topology"@) == lookup(fields, "topology"@));
            lemma_topology_round_trip(topology);
        },
        BroadcastV::TopologyOk { in_reply_to } => {
            assert(lookup(body, "in_reply_to"@) == lookup(fields, "in_reply_to"@));
        },
        BroadcastV::Gossip { seen } => {
            assert(lookup(body, "seen"@) == lookup(fields, "seen"@));
            lemma_nums_round_trip(seen);
        },
        _ => {},
    }
    assert(broadcast_of(broadcast_tag(m.data), body) == Some(m.data));
}

/// The JSON object of a topology.
pub fn topology_json(t: &Vec<(String, Vec<String>)>) -> (r: Json)
    ensures
        r.jv() == topology_v(topology_view(t@)),
{
    let mut entries: Vec<(String, Json)> = Vec::new();
    let mut i: usize = 0;
    while i < t.len()
        invariant
            i <= t.len(),
            entries@.len() == i,
            forall|k: int|
                0 <= k < i ==> (#[trigger] entries@[k]).0@ == t@[k].0@ && entries@[k].1.jv() == strs_v(
                    names(t@[k].1@),
                ),
        decreases t.len() - i,
    {
        let value = strs_json(&t[i].1);
        entries.push((t[i].0.clone(), value));
        i = i + 1;
    }
    let r = Json::Obj(entries);
    assert(fields_v(entries@) =~= topology_v(topology_view(t@))->Obj_0);
    r
}

/// Whether `out[k]` is the topology entry read from member `k` of `ev`.
pub open spec fn entry_read(ev: Seq<(Seq<char>, JsonV)>, out: Seq<(String, Vec<String>)>, k: int) -> bool {
    &&& ev[k].1 is Arr
    &&& strs_of(ev[k].1->Arr_0) == Some(names(out[k].1@))
    &&& out[k].0@ == ev[k].0
}

/// A topology member of `fields`.
pub fn get_topology(fields: &Vec<(String, Json)>, key: &str) -> (r: Result<Vec<(String, Vec<String>)>, ParseError>)
    ensures
        match r {
            Ok(t) => topology_field(fields_v(fields@), key@) == Some(topology_view(t@)),
            Err(_) => topology_field(fields_v(fields@), key@) is None,
        },
{
    let entries = match find_field(fields, key) {
        Some(Json::Obj(entries)) => entries,
        _ => {
            return Err(ParseError("expected a topology object".to_owned()));
        },
    };
    let ghost ev = fields_v(entries@);
    assert(lookup(fields_v(fields@), key@) == Some(JsonV::Obj(ev)));
    let mut out: Vec<(String, Vec<String>)> = Vec::new();
    let mut i: usize = 0;
    while i < entries.len()
        invariant
            i <= entries.len(),
            ev == fields_v(entries@),
            lookup(fields_v(fields@), key@) == Some(JsonV::Obj(ev)),
            out@.len() == i,
            forall|k: int| 0 <= k < i ==> #[trigger] entry_read(ev, out@, k),
        decreases entries.len() - i,
    {
        let ghost prev = out@;
        match &entries[i].1 {
            Json::Arr(items) => {
                assert(ev[i as int].1 == JsonV::Arr(crate::json::items_v(items@)));
                match strs_from(items) {
                    Ok(list) => {
                        let name = entries[i].0.clone();
                        out.push((name, list));
                        assert(out@[i as int].0@ == ev[i as int].0);
                        assert forall|k: int| 0 <= k < i + 1 implies #[trigger] entry_read(ev, out@, k) by {
                            if k < i {
                                assert(entry_read(ev, prev, k));
                                assert(out@[k] == prev[k]);
                            }
                        }
                    },
                    Err(e) => {
                        assert(!(ev[i as int].1 is Arr && strs_of(ev[i as int].1->Arr_0) is Some));
                        assert(topology_of(ev) is None);
                        return Err(e);
                    },
                }
            },
            _ => {
                assert(!(ev[i as int].1 is Arr));
                assert(topology_of(ev) is None);
                return Err(ParseError("expected an array of names".to_owned()));
            },
        }
        i = i + 1;
    }
    assert forall|k: int| 0 <= k < ev.len() implies ev[k].1 is Arr && strs_of(ev[k].1->Arr_0) is Some by {
        assert(entry_read(ev, out@, k));
    }
    assert forall|k: int| 0 <= k < ev.len() implies (#[trigger] topology_of(ev)->Some_0[k]) == topology_view(out@)[k] by {
        assert(entry_read(ev, out@, k));
    }
    assert(topology_of(ev)->Some_0 =~= topology_view(out@));
    Ok(out)
}

/// The JSON form of a broadcast envelope.
pub fn encode_broadcast(m: &Message<Broadcast>) -> (r: Json)
    ensures
        r.jv() == broadcast_json(m@),
{
    let src = m.src.clone();
    let dst = m.dst.clone();
    let id = m.body.msg_id;
    let ghost want = broadcast_fields(m.body.data@);
    match &m.body.data {
        Broadcast::Broadcast { message } => {
            let f = vec![member("message", Json::Num(*message))];
            assert(fields_v(f@) =~= want);
            envelope(src, dst, "broadcast", f, id)
        },
        Broadcast::BroadcastOk { in_reply_to } => {
            let f = vec![member("in_reply_to", Json::Num(*in_reply_to))];
            assert(fields_v(f@) =~= want);
            envelope(src, dst, "broadcast_ok", f, id)
        },
        Broadcast::Read => {
            let f: Vec<(String, Json)> = Vec::new();
            assert(fields_v(f@) =~= want);
            envelope(src, dst, "read", f, id)
        },
        Broadcast::ReadOk { messages, in_reply_to } => {
            let f = vec![member("messages", nums_json(messages)), member("in_reply_to", Json::Num(*in_reply_to))];
            assert(fields_v(f@) =~= want);
            envelope(src, dst, "read_ok", f, id)
        },
        Broadcast::Topology { topology } => {
            let f = vec![member("topology", topology_json(topology))];
            assert(fields_v(f@) =~= want);
            envelope(src, dst, "topology", f, id)
        },
        Broadcast::TopologyOk { in_reply_to } => {
            let f = vec![member("in_reply_to", Json::Num(*in_reply_to))];
            assert(fields_v(f@) =~= want);
            envelope(src, dst, "topology_ok", f, id)
        },
        Broadcast::TriggerGossip => {
            let f: Vec<(String, Json)> = Vec::new();
            assert(fields_v(f@) =~= want);
            envelope(src, dst, "trigger_gossip", f, id)
        },
        Broadcast::Gossip { seen } => {
            let f = vec![member("seen", nums_json(seen))];
            assert(fields_v(f@) =~= want);
            envelope(src, dst, "gossip", f, id)
        },
        Broadcast::Quit => {
            let f: Vec<(String, Json)> = Vec::new();
            assert(fields_v(f@) =~= want);
            envelope(src, dst, "quit", f, id)
        },
    }
}

/// The broadcast payload tagged `tag` with body members `body`.
fn broadcast_data(tag: &String, body: &Vec<(String, Json)>) -> (r: Result<Broadcast, ParseError>)
    ensures
        match r {
            Ok(b) => broadcast_of(tag@, fields_v(body@)) == Some(b@),
            Err(_) => broadcast_of(tag@, fields_v(body@)) is None,
        },
{
    if same_text(tag, "broadcast") {
        let message = get_num(body, "message")?;
        Ok(Broadcast::Broadcast { message })
    } else if same_text(tag, "broadcast_ok") {
        let in_reply_to = get_num(body, "in_reply_to")?;
        Ok(Broadcast::BroadcastOk { in_reply_to })
    } else if same_text(tag, "read") {
        Ok(Broadcast::Read)
    } else if same_text(tag, "read_ok") {
        let messages = get_nums(body, "messages")?;
        let in_reply_to = get_num(body, "in_reply_to")?;
        Ok(Broadcast::ReadOk { messages, in_reply_to })
    } else if same_text(tag, "topology") {
        let topology = get_topology(body, "topology")?;
        Ok(Broadcast::Topology { topology })
    } else if same_text(tag, "topology_ok") {
        let in_reply_to = get_num(body, "in_reply_to")?;
        Ok(Broadcast::TopologyOk { in_reply_to })
    } else if same_text(tag, "trigger_gossip") {
        Ok(Broadcast::TriggerGossip)
    } else if same_text(tag, "gossip") {
        let seen = get_nums(body, "seen")?;
        Ok(Broadcast::Gossip { seen })
    } else if same_text(tag, "quit") {
        Ok(Broadcast::Quit)
    } else {
        Err(ParseError("unknown message type".to_owned()))
    }
}

/// Reads a broadcast envelope.
pub fn decode_broadcast(j: &Json) -> (r: Result<Message<Broadcast>, ParseError>)
    ensures
        match r {
            Ok(m) => broadcast_message_of(j.jv()) == Some(m@),
            Err(_) => broadcast_message_of(j.jv()) is None,
        },
{
    let (src, dst, tag, body, msg_id) = read_frame(j)?;
    let data = broadcast_data(&tag, body)?;
    Ok(Message::new(src, dst, Payload::new(data, msg_id)))
}

/// The tag that names a counter payload on the wire.
pub open spec fn counter_tag(c: Counter) -> Seq<char> {
    match c {
        Counter::Add { .. } => "add"@,
        Counter::AddOk { .. } => "add_ok"@,
        Counter::Read => "read"@,
        Counter::ReadOk { .. } => "read_ok"@,
        Counter::Current { .. } => "current"@,
    }
}

/// The body members of a counter payload, besides its tag and id.
pub open spec fn counter_fields(c: Counter) -> Seq<(Seq<char>, JsonV)> {
    match c {
        Counter::Add { delta } => seq![("delta"@, JsonV::Num(delta))],
        Counter::AddOk { in_reply_to } => seq![("in_reply_to"@, JsonV::Num(in_reply_to))],
        Counter::Read => seq![],
        Counter::ReadOk { value, in_reply_to } => seq![
            ("value"@, JsonV::Num(value)),
            ("in_reply_to"@, JsonV::Num(in_reply_to)),
        ],
        Counter::Current { value } => seq![("value"@, JsonV::Num(value))],
    }
}

/// The counter payload tagged `tag` with body members `body`, if well formed.
pub open spec fn counter_of(tag: Seq<char>, body: Seq<(Seq<char>, JsonV)>) -> Option<Counter> {
    if tag == "add"@ {
        match num_field(body, "delta"@) {
            Some(delta) => Some(Counter::Add { delta }),
            None => None,
        }
    } else if tag == "add_ok"@ {
        match num_field(body, "in_reply_to"@) {
            Some(in_reply_to) => Some(Counter::AddOk { in_reply_to }),
            None => None,
        }
    } else if tag == "read"@ {
        Some(Counter::Read)
    } else if tag == "read_ok"@ {
        match (num_field(body, "value"@), num_field(body, "in_reply_to"@)) {
            (Some(value), Some(in_reply_to)) => Some(Counter::ReadOk { value, in_reply_to }),
            _ => None,
        }
    } else if tag == "current"@ {
        match num_field(body, "value"@) {
            Some(value) => Some(Counter::Current { value }),
            None => None,
        }
    } else {
        None
    }
}

/// The JSON form of a counter envelope.
pub open spec fn counter_json(m: MessageV<Counter>) -> JsonV {
    envelope_v(m.src, m.dst, counter_tag(m.data), counter_fields(m.data), m.msg_id)
}

/// The counter envelope that `j` holds, if well formed.
pub open spec fn counter_message_of(j: JsonV) -> Option<MessageV<Counter>> {
    match frame_of(j) {
        Some(f) => match counter_of(f.tag, f.body) {
            Some(data) => Some(MessageV { src: f.src, dst: f.dst, data, msg_id: f.msg_id }),
            None => None,
        },
        None => None,
    }
}

/// Decoding an encoded counter envelope gives back the same envelope.
pub proof fn lemma_counter_round_trip(m: MessageV<Counter>)
    ensures
        counter_message_of(counter_json(m)) == Some(m),
{
    lemma_member_names();
    reveal_strlit("add");
    reveal_strlit("add_ok");
    reveal_strlit("read");
    reveal_strlit("read_ok");
    reveal_strlit("current");
    assert("add"@.len() == 3);
    assert("add_ok"@.len() == 6);
    assert("read"@.len() == 4);
    assert("read_ok"@.len() == 7);
    assert("current"@.len() == 7);
    assert("read_ok"@[0] != "current"@[0]);
    let fields = counter_fields(m.data);
    assert(lacks(fields, "msg_id"@)) by {
        match m.data {
            Counter::ReadOk { .. } => {
                assert(fields[0].0 != "msg_id"@);
                assert(fields[1].0 != "msg_id"@);
            },
            _ => {},
        }
    }
    lemma_frame_round_trip(m.src, m.dst, counter_tag(m.data), fields, m.msg_id);
    let body = body_v(counter_tag(m.data), fields, m.msg_id);
    match m.data {
        Counter::Add { .. } => {
            assert(lookup(body, "delta"@) == lookup(fields, "delta"@));
        },
        Counter::ReadOk { value, in_reply_to } => {
            assert(lookup(body, "value"@) == lookup(fields, "value"@));
            assert(lookup(body, "in_reply_to"@) == lookup(fields, "in_reply_to"@));
            assert(lookup(fields.drop_first(), "in_reply_to"@) == Some(JsonV::Num(in_reply_to)));
        },
        Counter::Current { .. } => {
            assert(lookup(body, "value"@) == lookup(fields, "value"@));
        },
        _ => {
            assert(lookup(body, "in_reply_to"@) == lookup(fields, "in_reply_to"@));
        },
    }
    assert(counter_of(counter_tag(m.data), body) == Some(m.data));
}

/// The JSON form of a counter envelope.
pub fn encode_counter(m: &Message<Counter>) -> (r: Json)
    ensures
        r.jv() == counter_json(m@),
{
    let src = m.src.clone();
    let dst = m.dst.clone();
    let id = m.body.msg_id;
    let ghost want = counter_fields(m.body.data@);
    match &m.body.data {
        Counter::Add { delta } => {
            let f = vec![member("delta", Json::Num(*delta))];
            assert(fields_v(f@) =~= want);
            envelope(src, dst, "add", f, id)
        },
        Counter::AddOk { in_reply_to } => {
            let f = vec![member("in_reply_to", Json::Num(*in_reply_to))];
            assert(fields_v(f@) =~= want);
            envelope(src, dst, "add_ok", f, id)
        },
        Counter::Read => {
            let f: Vec<(String, Json)> = Vec::new();
            assert(fields_v(f@) =~= want);
            envelope(src, dst, "read", f, id)
        },
        Counter::ReadOk { value, in_reply_to } => {
            let f = vec![member("value", Json::Num(*value)), member("in_reply_to", Json::Num(*in_reply_to))];
            assert(fields_v(f@) =~= want);
            envelope(src, dst, "read_ok", f, id)
        },
        Counter::Current { value } => {
            let f = vec![member("value", Json::Num(*value))];
            assert(fields_v(f@) =~= want);
            envelope(src, dst, "current", f, id)
        },
    }
}

/// The counter payload tagged `tag` with body members `body`.
fn counter_data(tag: &String, body: &Vec<(String, Json)>) -> (r: Result<Counter, ParseError>)
    ensures
        match r {
            Ok(c) => counter_of(tag@, fields_v(body@)) == Some(c@),
            Err(_) => counter_of(tag@, fields_v(body@)) is None,
        },
{
    if same_text(tag, "add") {
        let delta = get_num(body, "delta")?;
        Ok(Counter::Add { delta })
    } else if same_text(tag, "add_ok") {
        let in_reply_to = get_num(body, "in_reply_to")?;
        Ok(Counter::AddOk { in_reply_to })
    } else if same_text(tag, "read") {
        Ok(Counter::Read)
    } else if same_text(tag, "read_ok") {
        let value = get_num(body, "value")?;
        let in_reply_to = get_num(body, "in_reply_to")?;
        Ok(Counter::ReadOk { value, in_reply_to })
    } else if same_text(tag, "current") {
        let value = get_num(body, "value")?;
        Ok(Counter::Current { value })
    } else {
        Err(ParseError("unknown message type".to_owned()))
    }
}

/// Reads a counter envelope.
pub fn decode_counter(j: &Json) -> (r: Result<Message<Counter>, ParseError>)
    ensures
        match r {
            Ok(m) => counter_message_of(j.jv()) == Some(m@),
            Err(_) => counter_message_of(j.jv()) is None,
        },
{
    let (src, dst, tag, body, msg_id) = read_frame(j)?;
    let data = counter_data(&tag, body)?;
    Ok(Message::new(src, dst, Payload::new(data, msg_id)))
}

/// The tag that names a handshake payload on the wire.
pub open spec fn init_tag(i: InitV) -> Seq<char> {
    match i {
        InitV::Init { .. } => "init"@,
        InitV::InitOk { .. } => "init_ok"@,
    }
}

/// The body members of a handshake payload, besides its tag and id.
pub open spec fn init_fields(i: InitV) -> Seq<(Seq<char>, JsonV)> {
    match i {
        InitV::Init { node_id, node_ids } => seq![
            ("node_id"@, JsonV::Str(node_id)),
            ("node_ids"@, strs_v(node_ids)),
        ],
        InitV::InitOk { in_reply_to } => seq![("in_reply_to"@, JsonV::Num(in_reply_to))],
    }
}

/// The handshake payload tagged `tag` with body members `body`, if well formed.
pub open spec fn init_of(tag: Seq<char>, body: Seq<(Seq<char>, JsonV)>) -> Option<InitV> {
    if tag == "init"@ {
        match (str_field(body, "node_id"@), strs_field(body, "node_ids"@)) {
            (Some(node_id), Some(node_ids)) => Some(InitV::Init { node_id, node_ids }),
            _ => None,
        }
    } else if tag == "init_ok"@ {
        match num_field(body, "in_reply_to"@) {
            Some(in_reply_to) => Some(InitV::InitOk { in_reply_to }),
            None => None,
        }
    } else {
        None
    }
}

/// The JSON form of a handshake envelope.
pub open spec fn init_json(m: MessageV<InitV>) -> JsonV {
    envelope_v(m.src, m.dst, init_tag(m.data), init_fields(m.data), m.msg_id)
}

/// The handshake envelope that `j` holds, if well formed.
pub open spec fn init_message_of(j: JsonV) -> Option<MessageV<InitV>> {
    match frame_of(j) {
        Some(f) => match init_of(f.tag, f.body) {
            Some(data) => Some(MessageV { src: f.src, dst: f.dst, data, msg_id: f.msg_id }),
            None => None,
        },
        None => None,
    }
}

/// Decoding an encoded handshake envelope gives back the same envelope.
pub proof fn lemma_init_round_trip(m: MessageV<InitV>)
    ensures
        init_message_of(init_json(m)) == Some(m),
{
    lemma_member_names();
    reveal_strlit("init");
    reveal_strlit("init_ok");
    assert("init"@.len() == 4);
    assert("init_ok"@.len() == 7);
    let fields = init_fields(m.data);
    assert(lacks(fields, "msg_id"@)) by {
        match m.data {
            InitV::Init { .. } => {
                assert(fields[0].0 != "msg_id"@);
                assert(fields[1].0 != "msg_id"@);
            },
            _ => {},
        }
    }
    lemma_frame_round_trip(m.src, m.dst, init_tag(m.data), fields, m.msg_id);
    let body = body_v(init_tag(m.data), fields, m.msg_id);
    match m.data {
        InitV::Init { node_id, node_ids } => {
            assert(lookup(body, "node_id"@) == lookup(fields, "node_id"@));
            assert(lookup(body, "node_ids"@) == lookup(fields, "node_ids"@));
            assert(lookup(fields.drop_first(), "node_ids"@) == Some(strs_v(node_ids)));
            lemma_strs_round_trip(node_ids);
        },
        InitV::InitOk { .. } => {
            assert(lookup(body, "in_reply_to"@) == lookup(fields, "in_reply_to"@));
        },
    }
    assert(init_of(init_tag(m.data), body) == Some(m.data));
}

/// The JSON form of a handshake envelope.
pub fn encode_init(m: &Message<Init>) -> (r: Json)
    ensures
        r.jv() == init_json(m@),
{
    let src = m.src.clone();
    let dst = m.dst.clone();
    let id = m.body.msg_id;
    let ghost want = init_fields(m.body.data@);
    match &m.body.data {
        Init::Init { node_id, node_ids } => {
            let f = vec![member("node_id", Json::Str(node_id.clone())), member("node_ids", strs_json(node_ids))];
            assert(fields_v(f@) =~= want);
            envelope(src, dst, "init", f, id)
        },
        Init::InitOk { in_reply_to } => {
            let f = vec![member("in_reply_to", Json::Num(*in_reply_to))];
            assert(fields_v(f@) =~= want);
            envelope(src, dst, "init_ok", f, id)
        },
    }
}

/// Reads a handshake envelope.
pub fn decode_init(j: &Json) -> (r: Result<Message<Init>, ParseError>)
    ensures
        match r {
            Ok(m) => init_message_of(j.jv()) == Some(m@),
            Err(_) => init_message_of(j.jv()) is None,
        },
{
    let (src, dst, tag, body, msg_id) = read_frame(j)?;
    let data = if same_text(&tag, "init") {
        let node_id = get_str(body, "node_id")?;
        let node_ids = get_strs(body, "node_ids")?;
        Init::Init { node_id, node_ids }
    } else if same_text(&tag, "init_ok") {
        let in_reply_to = get_num(body, "in_reply_to")?;
        Init::InitOk { in_reply_to }
    } else {
        return Err(ParseError("unknown message type".to_owned()));
    };
    Ok(Message::new(src, dst, Payload::new(data, msg_id)))
}

/// The JSON object of a handshake payload on its own: its tag and members.
pub fn encode_init_payload(i: &Init) -> (r: Json)
    ensures
        r.jv() == JsonV::Obj(seq![("type"@, JsonV::Str(init_tag(i@)))] + init_fields(i@)),
{
    let ghost want = seq![("type"@, JsonV::Str(init_tag(i@)))] + init_fields(i@);
    match i {
        Init::Init { node_id, node_ids } => {
            let f = vec![
                member("type", Json::Str("init".to_owned())),
                member("node_id", Json::Str(node_id.clone())),
                member("node_ids", strs_json(node_ids)),
            ];
            assert(fields_v(f@) =~= want);
            Json::Obj(f)
        },
        Init::InitOk { in_reply_to } => {
            let f = vec![member("type", Json::Str("init_ok".to_owned())), member("in_reply_to", Json::Num(*in_reply_to))];
            assert(fields_v(f@) =~= want);
            Json::Obj(f)
        },
    }
}

/// The tag that names an echo payload on the wire.
pub open spec fn echo_tag(e: EchoV) -> Seq<char> {
    match e {
        EchoV::Echo { .. } => "echo"@,
        EchoV::EchoOk { .. } => "echo_ok"@,
    }
}

/// The body members of an echo payload, besides its tag and id.
pub open spec fn echo_fields(e: EchoV) -> Seq<(Seq<char>, JsonV)> {
    match e {
        EchoV::Echo { echo } => seq![("echo"@, JsonV::Str(echo))],
        EchoV::EchoOk { echo, in_reply_to } => seq![
            ("echo"@, JsonV::Str(echo)),
            ("in_reply_to"@, JsonV::Num(in_reply_to)),
        ],
    }
}

/// The echo payload tagged `tag` with body members `body`, if well formed.
pub open spec fn echo_of(tag: Seq<char>, body: Seq<(Seq<char>, JsonV)>) -> Option<EchoV> {
    if tag == "echo"@ {
        match str_field(body, "echo"@) {
            Some(echo) => Some(EchoV::Echo { echo }),
            None => None,
        }
    } else if tag == "echo_ok"@ {
        match (str_field(body, "echo"@), num_field(body, "in_reply_to"@)) {
            (Some(echo), Some(in_reply_to)) => Some(EchoV::EchoOk { echo, in_reply_to }),
            _ => None,
        }
    } else {
        None
    }
}

/// The JSON form of an echo envelope.
pub open spec fn echo_json(m: MessageV<EchoV>) -> JsonV {
    envelope_v(m.src, m.dst, echo_tag(m.data), echo_fields(m.data), m.msg_id)
}

/// The echo envelope that `j` holds, if well formed.
pub open spec fn echo_message_of(j: JsonV) -> Option<MessageV<EchoV>> {
    match frame_of(j) {
        Some(f) => match echo_of(f.tag, f.body) {
            Some(data) => Some(MessageV { src: f.src, dst: f.dst, data, msg_id: f.msg_id }),
            None => None,
        },
        None => None,
    }
}

/// Decoding an encoded echo envelope gives back the same envelope.
pub proof fn lemma_echo_round_trip(m: MessageV<EchoV>)
    ensures
        echo_message_of(echo_json(m)) == Some(m),
{
    lemma_member_names();
    reveal_strlit("echo");
    reveal_strlit("echo_ok");
    assert("echo"@.len() == 4);
    assert("echo_ok"@.len() == 7);
    let fields = echo_fields(m.data);
    assert(lacks(fields, "msg_id"@)) by {
        match m.data {
            EchoV::EchoOk { .. } => {
                assert(fields[0].0 != "msg_id"@);
                assert(fields[1].0 != "msg_id"@);
            },
            _ => {},
        }
    }
    lemma_frame_round_trip(m.src, m.dst, echo_tag(m.data), fields, m.msg_id);
    let body = body_v(echo_tag(m.data), fields, m.msg_id);
    assert(lookup(body, "echo"@) == lookup(fields, "echo"@));
    match m.data {
        EchoV::EchoOk { in_reply_to, .. } => {
            assert(lookup(body, "in_reply_to"@) == lookup(fields, "in_reply_to"@));
            assert(lookup(fields.drop_first(), "in_reply_to"@) == Some(JsonV::Num(in_reply_to)));
        },
        _ => {},
    }
    assert(echo_of(echo_tag(m.data), body) == Some(m.data));
}

/// The JSON form of an echo envelope.
pub fn encode_echo(m: &Message<Echo>) -> (r: Json)
    ensures
        r.jv() == echo_json(m@),
{
    let src = m.src.clone();
    let dst = m.dst.clone();
    let id = m.body.msg_id;
    let ghost want = echo_fields(m.body.data@);
    match &m.body.data {
        Echo::Echo { echo } => {
            let f = vec![member("echo", Json::Str(echo.clone()))];
            assert(fields_v(f@) =~= want);
            envelope(src, dst, "echo", f, id)
        },
        Echo::EchoOk { echo, in_reply_to } => {
            let f = vec![member("echo", Json::Str(echo.clone())), member("in_reply_to", Json::Num(*in_reply_to))];
            assert(fields_v(f@) =~= want);
            envelope(src, dst, "echo_ok", f, id)
        },
    }
}

/// Reads an echo envelope.
pub fn decode_echo(j: &Json) -> (r: Result<Message<Echo>, ParseError>)
    ensures
        match r {
            Ok(m) => echo_message_of(j.jv()) == Some(m@),
            Err(_) => echo_message_of(j.jv()) is None,
        },
{
    let (src, dst, tag, body, msg_id) = read_frame(j)?;
    let data = if same_text(&tag, "echo") {
        let echo = get_str(body, "echo")?;
        Echo::Echo { echo }
    } else if same_text(&tag, "echo_ok") {
        let echo = get_str(body, "echo")?;
        let in_reply_to = get_num(body, "in_reply_to")?;
        Echo::EchoOk { echo, in_reply_to }
    } else {
        return Err(ParseError("unknown message type".to_owned()));
    };
    Ok(Message::new(src, dst, Payload::new(data, msg_id)))
}

/// The tag that names a unique-id payload on the wire.
pub open spec fn generate_tag(g: GenerateV) -> Seq<char> {
    match g {
        GenerateV::Generate => "generate"@,
        GenerateV::GenerateOk { .. } => "generate_ok"@,
    }
}

/// The body members of a unique-id payload, besides its tag and id.
pub open spec fn generate_fields(g: GenerateV) -> Seq<(Seq<char>, JsonV)> {
    match g {
        GenerateV::Generate => seq![],
        GenerateV::GenerateOk { id, in_reply_to } => seq![
            ("id"@, JsonV::Str(id)),
            ("in_reply_to"@, JsonV::Num(in_reply_to)),
        ],
    }
}

/// The unique-id payload tagged `tag` with body members `body`, if well formed.
pub open spec fn generate_of(tag: Seq<char>, body: Seq<(Seq<char>, JsonV)>) -> Option<GenerateV> {
    if tag == "generate"@ {
        Some(GenerateV::Generate)
    } else if tag == "generate_ok"@ {
        match (str_field(body, "id"@), num_field(body, "in_reply_to"@)) {
            (Some(id), Some(in_reply_to)) => Some(GenerateV::GenerateOk { id, in_reply_to }),
            _ => None,
        }
    } else {
        None
    }
}

/// The JSON form of a unique-id envelope.
pub open spec fn generate_json(m: MessageV<GenerateV>) -> JsonV {
    envelope_v(m.src, m.dst, generate_tag(m.data), generate_fields(m.data), m.msg_id)
}

/// The unique-id envelope that `j` holds, if well formed.
pub open spec fn generate_message_of(j: JsonV) -> Option<MessageV<GenerateV>> {
    match frame_of(j) {
        Some(f) => match generate_of(f.tag, f.body) {
            Some(data) => Some(MessageV { src: f.src, dst: f.dst, data, msg_id: f.msg_id }),
            None => None,
        },
        None => None,
    }
}

/// Decoding an encoded unique-id envelope gives back the same envelope.
pub proof fn lemma_generate_round_trip(m: MessageV<GenerateV>)
    ensures
        generate_message_of(generate_json(m)) == Some(m),
{
    lemma_member_names();
    reveal_strlit("generate");
    reveal_strlit("generate_ok");
    assert("generate"@.len() == 8);
    assert("generate_ok"@.len() == 11);
    let fields = generate_fields(m.data);
    assert(lacks(fields, "msg_id"@)) by {
        match m.data {
            GenerateV::GenerateOk { .. } => {
                assert(fields[0].0 != "msg_id"@);
                assert(fields[1].0 != "msg_id"@);
            },
            _ => {},
        }
    }
    lemma_frame_round_trip(m.src, m.dst, generate_tag(m.data), fields, m.msg_id);
    let body = body_v(generate_tag(m.data), fields, m.msg_id);
    match m.data {
        GenerateV::GenerateOk { in_reply_to, .. } => {
            assert(lookup(body, "id"@) == lookup(fields, "id"@));
            assert(lookup(body, "in_reply_to"@) == lookup(fields, "in_reply_to"@));
            assert(lookup(fields.drop_first(), "in_reply_to"@) == Some(JsonV::Num(in_reply_to)));
        },
        _ => {},
    }
    assert(generate_of(generate_tag(m.data), body) == Some(m.data));
}

/// The JSON form of a unique-id envelope.
pub fn encode_generate(m: &Message<Generate>) -> (r: Json)
    ensures
        r.jv() == generate_json(m@),
{
    let src = m.src.clone();
    let dst = m.dst.clone();
    let id = m.body.msg_id;
    let ghost want = generate_fields(m.body.data@);
    match &m.body.data {
        Generate::Generate => {
            let f: Vec<(String, Json)> = Vec::new();
            assert(fields_v(f@) =~= want);
            envelope(src, dst, "generate", f, id)
        },
        Generate::GenerateOk { id: given, in_reply_to } => {
            let f = vec![member("id", Json::Str(given.clone())), member("in_reply_to", Json::Num(*in_reply_to))];
            assert(fields_v(f@) =~= want);
            envelope(src, dst, "generate_ok", f, id)
        },
    }
}

/// Reads a unique-id envelope.
pub fn decode_generate(j: &Json) -> (r: Result<Message<Generate>, ParseError>)
    ensures
        match r {
            Ok(m) => generate_message_of(j.jv()) == Some(m@),
            Err(_) => generate_message_of(j.jv()) is None,
        },
{
    let (src, dst, tag, body, msg_id) = read_frame(j)?;
    let data = if same_text(&tag, "generate") {
        Generate::Generate
    } else if same_text(&tag, "generate_ok") {
        let id = get_str(body, "id")?;
        let in_reply_to = get_num(body, "in_reply_to")?;
        Generate::GenerateOk { id, in_reply_to }
    } else {
        return Err(ParseError("unknown message type".to_owned()));
    };
    Ok(Message::new(src, dst, Payload::new(data, msg_id)))
}

} // verus!
