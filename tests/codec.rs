use cluster_nodes::gossip::Broadcast;
use cluster_nodes::codec::{
    decode_broadcast, decode_counter, decode_echo, decode_generate, decode_init, encode_broadcast, encode_counter,
    encode_echo, encode_generate, encode_init, encode_init_payload,
};
use cluster_nodes::echo::Echo;
use cluster_nodes::unique_id::Generate;
use cluster_nodes::counter::Counter;
use cluster_nodes::json::Json;
use cluster_nodes::message::{Init, Message, Payload};

fn s(x: &str) -> Json {
    Json::Str(x.to_string())
}

fn obj(members: Vec<(&str, Json)>) -> Json {
    Json::Obj(members.into_iter().map(|(k, v)| (k.to_string(), v)).collect())
}

fn envelope(src: &str, dst: &str, body: Vec<(&str, Json)>) -> Json {
    obj(vec![("src", s(src)), ("dest", s(dst)), ("body", obj(body))])
}

fn bmsg(data: Broadcast, msg_id: Option<usize>) -> Message<Broadcast> {
    Message::new("n1".to_string(), "n2".to_string(), Payload::new(data, msg_id))
}

#[test]
fn test_init_message_serialization() {
    let init_message = Init::Init {
        node_id: "n3".to_string(),
        node_ids: vec!["n1".to_string(), "n2".to_string(), "n3".to_string()],
    };
    assert_eq!(
        encode_init_payload(&init_message),
        obj(vec![("type", s("init")), ("node_id", s("n3")), ("node_ids", Json::Arr(vec![s("n1"), s("n2"), s("n3")]))])
    );

    let message = Message::new("n1".to_string(), "c2".to_string(), Payload::new(init_message, None));
    let expected = envelope(
        "n1",
        "c2",
        vec![
            ("type", s("init")),
            ("node_id", s("n3")),
            ("node_ids", Json::Arr(vec![s("n1"), s("n2"), s("n3")])),
            ("msg_id", Json::Null),
        ],
    );
    assert_eq!(encode_init(&message), expected);
}

#[test]
fn init_round_trip() {
    let message = Message::new(
        "c0".to_string(),
        "n2".to_string(),
        Payload::new(Init::Init { node_id: "n2".to_string(), node_ids: vec!["n1".to_string(), "n2".to_string()] }, Some(1)),
    );
    let back = decode_init(&encode_init(&message)).ok().unwrap();
    assert_eq!(back.src, "c0");
    assert_eq!(back.dst, "n2");
    assert_eq!(back.body.msg_id, Some(1));
    match back.body.data {
        Init::Init { node_id, node_ids } => {
            assert_eq!(node_id, "n2");
            assert_eq!(node_ids, vec!["n1".to_string(), "n2".to_string()]);
        }
        _ => panic!("expected init"),
    }
}

#[test]
fn broadcast_round_trip_every_kind() {
    let kinds = vec![
        Broadcast::Broadcast { message: 42 },
        Broadcast::BroadcastOk { in_reply_to: 3 },
        Broadcast::Read,
        Broadcast::ReadOk { messages: vec![3, 1, 2], in_reply_to: 9 },
        Broadcast::Topology { topology: vec![("n1".to_string(), vec!["n2".to_string()]), ("n2".to_string(), vec![])] },
        Broadcast::TopologyOk { in_reply_to: 4 },
        Broadcast::TriggerGossip,
        Broadcast::Gossip { seen: vec![] },
        Broadcast::Quit,
    ];
    for (k, data) in kinds.into_iter().enumerate() {
        let msg_id = if k % 2 == 0 { Some(k) } else { None };
        let tree = encode_broadcast(&bmsg(data, msg_id));
        let back = decode_broadcast(&tree).ok().unwrap();
        assert_eq!(back.src, "n1");
        assert_eq!(back.dst, "n2");
        assert_eq!(back.body.msg_id, msg_id);
        assert_eq!(encode_broadcast(&back), tree);
    }
}

#[test]
fn broadcast_read_ok_wire_form() {
    let tree = encode_broadcast(&bmsg(Broadcast::ReadOk { messages: vec![7, 5], in_reply_to: 2 }, Some(2)));
    let expected = envelope(
        "n1",
        "n2",
        vec![
            ("type", s("read_ok")),
            ("messages", Json::Arr(vec![Json::Num(7), Json::Num(5)])),
            ("in_reply_to", Json::Num(2)),
            ("msg_id", Json::Num(2)),
        ],
    );
    assert_eq!(tree, expected);
}

#[test]
fn decode_topology_from_wire() {
    let tree = envelope(
        "c1",
        "n1",
        vec![
            ("type", s("topology")),
            ("topology", obj(vec![("n1", Json::Arr(vec![s("n2"), s("n3")])), ("n2", Json::Arr(vec![s("n1")]))])),
            ("msg_id", Json::Num(1)),
        ],
    );
    let m = decode_broadcast(&tree).ok().unwrap();
    match m.body.data {
        Broadcast::Topology { topology } => {
            assert_eq!(topology.len(), 2);
            assert_eq!(topology[0].0, "n1");
            assert_eq!(topology[0].1, vec!["n2".to_string(), "n3".to_string()]);
        }
        _ => panic!("expected topology"),
    }
}

#[test]
fn missing_or_null_msg_id_is_none() {
    let without = envelope("c1", "n1", vec![("type", s("read"))]);
    assert_eq!(decode_broadcast(&without).ok().unwrap().body.msg_id, None);
    let null = envelope("c1", "n1", vec![("type", s("read")), ("msg_id", Json::Null)]);
    assert_eq!(decode_broadcast(&null).ok().unwrap().body.msg_id, None);
    let bad = envelope("c1", "n1", vec![("type", s("read")), ("msg_id", s("x"))]);
    assert!(decode_broadcast(&bad).is_err());
}

#[test]
fn unknown_type_is_an_error() {
    let tree = envelope("c1", "n1", vec![("type", s("shout")), ("msg_id", Json::Num(1))]);
    assert!(decode_broadcast(&tree).is_err());
    assert!(decode_counter(&tree).is_err());
    assert!(decode_init(&tree).is_err());
}

#[test]
fn missing_or_mistyped_member_is_an_error() {
    let missing = envelope("c1", "n1", vec![("type", s("broadcast")), ("msg_id", Json::Num(1))]);
    assert!(decode_broadcast(&missing).is_err());
    let mistyped = envelope("c1", "n1", vec![("type", s("broadcast")), ("message", s("42"))]);
    assert!(decode_broadcast(&mistyped).is_err());
    let bad_item = envelope("c1", "n1", vec![("type", s("gossip")), ("seen", Json::Arr(vec![Json::Num(1), Json::Null]))]);
    assert!(decode_broadcast(&bad_item).is_err());
    let no_src = obj(vec![("dest", s("n1")), ("body", obj(vec![("type", s("read"))]))]);
    assert!(decode_broadcast(&no_src).is_err());
    assert!(decode_broadcast(&Json::Arr(vec![])).is_err());
}

#[test]
fn extra_members_are_ignored() {
    let tree = envelope(
        "c1",
        "n1",
        vec![("type", s("add")), ("note", s("x")), ("delta", Json::Num(4)), ("msg_id", Json::Num(8))],
    );
    let m = decode_counter(&tree).ok().unwrap();
    assert!(matches!(m.body.data, Counter::Add { delta: 4 }));
    assert_eq!(m.body.msg_id, Some(8));
}

#[test]
fn counter_round_trip_every_kind() {
    let kinds = vec![
        Counter::Add { delta: 5 },
        Counter::AddOk { in_reply_to: 1 },
        Counter::Read,
        Counter::ReadOk { value: 8, in_reply_to: 2 },
        Counter::Current { value: 3 },
    ];
    for data in kinds {
        let m = Message::new("n1".to_string(), "n3".to_string(), Payload::new(data, Some(6)));
        let tree = encode_counter(&m);
        let back = decode_counter(&tree).ok().unwrap();
        assert_eq!(back.src, "n1");
        assert_eq!(back.dst, "n3");
        assert_eq!(back.body.msg_id, Some(6));
        assert_eq!(encode_counter(&back), tree);
    }
    let tree = encode_counter(&Message::new("n1".to_string(), "n2".to_string(), Payload::new(Counter::Current { value: 8 }, None)));
    assert_eq!(
        tree,
        envelope("n1", "n2", vec![("type", s("current")), ("value", Json::Num(8)), ("msg_id", Json::Null)])
    );
}

#[test]
fn echo_round_trip() {
    let m = Message::new("c1".to_string(), "n1".to_string(), Payload::new(Echo::Echo { echo: "hi \"there\"".to_string() }, Some(2)));
    let tree = encode_echo(&m);
    assert_eq!(tree, envelope("c1", "n1", vec![("type", s("echo")), ("echo", s("hi \"there\"")), ("msg_id", Json::Num(2))]));
    let back = decode_echo(&tree).ok().unwrap();
    assert_eq!(encode_echo(&back), tree);
    let ok = Message::new("n1".to_string(), "c1".to_string(), Payload::new(Echo::EchoOk { echo: "x".to_string(), in_reply_to: 2 }, None));
    let back = decode_echo(&encode_echo(&ok)).ok().unwrap();
    match back.body.data {
        Echo::EchoOk { echo, in_reply_to } => {
            assert_eq!(echo, "x");
            assert_eq!(in_reply_to, 2);
        }
        _ => panic!("expected echo_ok"),
    }
    assert!(decode_echo(&envelope("c1", "n1", vec![("type", s("echo"))])).is_err());
}

#[test]
fn generate_round_trip() {
    let m = Message::new("c1".to_string(), "n7".to_string(), Payload::new(Generate::Generate, Some(5)));
    let tree = encode_generate(&m);
    assert_eq!(tree, envelope("c1", "n7", vec![("type", s("generate")), ("msg_id", Json::Num(5))]));
    assert!(matches!(decode_generate(&tree).ok().unwrap().body.data, Generate::Generate));
    let ok = Message::new(
        "n7".to_string(),
        "c1".to_string(),
        Payload::new(Generate::GenerateOk { id: "n7_1".to_string(), in_reply_to: 5 }, Some(5)),
    );
    let tree = encode_generate(&ok);
    let back = decode_generate(&tree).ok().unwrap();
    assert_eq!(encode_generate(&back), tree);
    match back.body.data {
        Generate::GenerateOk { id, in_reply_to } => {
            assert_eq!(id, "n7_1");
            assert_eq!(in_reply_to, 5);
        }
        _ => panic!("expected generate_ok"),
    }
    assert!(decode_generate(&envelope("c1", "n7", vec![("type", s("generate_ok")), ("id", Json::Num(1))])).is_err());
}

#[test]
fn unrelated_booleans_and_other_numbers_are_ignored() {
    let tree = envelope(
        "c1",
        "n1",
        vec![
            ("type", s("broadcast")),
            ("message", Json::Num(3)),
            ("urgent", Json::Bool(true)),
            ("weight", Json::OtherNum("-1.5".to_string())),
        ],
    );
    assert!(matches!(decode_broadcast(&tree).ok().unwrap().body.data, Broadcast::Broadcast { message: 3 }));
    let negative = envelope("c1", "n1", vec![("type", s("broadcast")), ("message", Json::OtherNum("-3".to_string()))]);
    assert!(decode_broadcast(&negative).is_err());
}
