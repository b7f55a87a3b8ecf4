use cluster_nodes::echo::{Echo, EchoNode};
use cluster_nodes::message::{reply_id_of, Handler, Init, Message, Payload};
use cluster_nodes::unique_id::{Generate, UniqueIdNode};

#[test]
fn handshake_is_acknowledged() {
    let mut init = Init::Init { node_id: "n3".to_string(), node_ids: vec!["n1".to_string(), "n3".to_string()] };
    let request = Message::new(
        "c0".to_string(),
        "n3".to_string(),
        Payload::new(Init::Init { node_id: "n3".to_string(), node_ids: vec!["n3".to_string()] }, Some(17)),
    );
    let out = init.handle(request);
    assert_eq!(out.len(), 1);
    assert_eq!(out[0].src, "n3");
    assert_eq!(out[0].dst, "c0");
    assert_eq!(out[0].body.msg_id, None);
    assert!(matches!(out[0].body.data, Init::InitOk { in_reply_to: 17 }));
}

#[test]
fn reply_id_is_request_id_or_one() {
    assert_eq!(reply_id_of(Some(5)), 5);
    assert_eq!(reply_id_of(Some(0)), 0);
    assert_eq!(reply_id_of(None), 1);
}

#[test]
fn echo_returns_the_text() {
    let mut n = EchoNode::new("n1".to_string());
    let out = n.handle(Message::new(
        "c1".to_string(),
        "n1".to_string(),
        Payload::new(Echo::Echo { echo: "hello".to_string() }, Some(2)),
    ));
    assert_eq!(out.len(), 1);
    assert_eq!(out[0].dst, "c1");
    assert_eq!(out[0].body.msg_id, Some(2));
    match &out[0].body.data {
        Echo::EchoOk { echo, in_reply_to } => {
            assert_eq!(echo, "hello");
            assert_eq!(*in_reply_to, 2);
        }
        _ => panic!("expected echo_ok"),
    }
}

fn generate(n: &mut UniqueIdNode, msg_id: Option<usize>) -> (String, usize) {
    let out = n.handle(Message::new("c1".to_string(), "n7".to_string(), Payload::new(Generate::Generate, msg_id)));
    assert_eq!(out.len(), 1);
    assert_eq!(out[0].src, "n7");
    assert_eq!(out[0].dst, "c1");
    match &out[0].body.data {
        Generate::GenerateOk { id, in_reply_to } => (id.clone(), *in_reply_to),
        _ => panic!("expected generate_ok"),
    }
}

#[test]
fn generated_ids_are_numbered_per_node() {
    let mut n = UniqueIdNode::new("n7".to_string());
    assert_eq!(generate(&mut n, Some(3)), ("n7_1".to_string(), 3));
    assert_eq!(generate(&mut n, None), ("n7_2".to_string(), 1));
    for _ in 0..8 {
        generate(&mut n, Some(1));
    }
    assert_eq!(generate(&mut n, Some(1)).0, "n7_11");
}

#[test]
fn stray_generate_ok_is_returned_as_is() {
    let mut n = UniqueIdNode::new("n7".to_string());
    let m = Message::new(
        "c1".to_string(),
        "n7".to_string(),
        Payload::new(Generate::GenerateOk { id: "x".to_string(), in_reply_to: 4 }, Some(6)),
    );
    let out = n.handle(m);
    assert_eq!(out[0].src, "c1");
    assert_eq!(out[0].dst, "n7");
    assert_eq!(out[0].body.msg_id, Some(6));
    assert!(matches!(&out[0].body.data, Generate::GenerateOk { in_reply_to: 4, .. }));
    assert_eq!(generate(&mut n, Some(1)).0, "n7_1");
}
