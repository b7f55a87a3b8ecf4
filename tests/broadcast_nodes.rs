use cluster_nodes::gossip::{Broadcast, BroadcastNode};
use cluster_nodes::message::{Handler, Message, Payload};

fn msg(src: &str, dst: &str, data: Broadcast, msg_id: Option<usize>) -> Message<Broadcast> {
    Message::new(src.to_string(), dst.to_string(), Payload::new(data, msg_id))
}

fn sorted(mut v: Vec<usize>) -> Vec<usize> {
    v.sort();
    v
}

fn read(node: &mut BroadcastNode) -> Vec<usize> {
    let out = node.handle(msg("c1", "n", Broadcast::Read, Some(9)));
    assert_eq!(out.len(), 1);
    match &out[0].body.data {
        Broadcast::ReadOk { messages, in_reply_to } => {
            assert_eq!(*in_reply_to, 9);
            sorted(messages.clone())
        }
        _ => panic!("expected read_ok"),
    }
}

fn topology(entries: &[(&str, &[&str])]) -> Broadcast {
    Broadcast::Topology {
        topology: entries
            .iter()
            .map(|(k, v)| (k.to_string(), v.iter().map(|s| s.to_string()).collect()))
            .collect(),
    }
}

/// Delivers every gossip message in `out` whose destination is `node`.
fn deliver(out: Vec<Message<Broadcast>>, dst: &str, node: &mut BroadcastNode) {
    for m in out {
        if m.dst == dst {
            assert!(node.handle(m).is_empty());
        }
    }
}

#[test]
fn broadcast_is_recorded_and_acknowledged() {
    let mut n = BroadcastNode::new("n1".to_string());
    let out = n.handle(msg("c1", "n1", Broadcast::Broadcast { message: 42 }, Some(3)));
    assert_eq!(out.len(), 1);
    assert_eq!(out[0].src, "n1");
    assert_eq!(out[0].dst, "c1");
    assert_eq!(out[0].body.msg_id, Some(3));
    assert!(matches!(out[0].body.data, Broadcast::BroadcastOk { in_reply_to: 3 }));
    assert_eq!(read(&mut n), vec![42]);
}

#[test]
fn repeated_broadcast_is_kept_once() {
    let mut n = BroadcastNode::new("n1".to_string());
    n.handle(msg("c1", "n1", Broadcast::Broadcast { message: 5 }, Some(1)));
    n.handle(msg("c1", "n1", Broadcast::Broadcast { message: 5 }, Some(2)));
    n.handle(msg("c1", "n1", Broadcast::Broadcast { message: 6 }, Some(3)));
    assert_eq!(read(&mut n), vec![5, 6]);
}

#[test]
fn reply_id_defaults_to_one() {
    let mut n = BroadcastNode::new("n1".to_string());
    let out = n.handle(msg("c1", "n1", Broadcast::Broadcast { message: 1 }, None));
    assert_eq!(out[0].body.msg_id, None);
    assert!(matches!(out[0].body.data, Broadcast::BroadcastOk { in_reply_to: 1 }));
}

#[test]
fn broadcast_example_reaches_neighbour() {
    let topo: &[(&str, &[&str])] = &[("n1", &["n2"]), ("n2", &["n1"])];
    let mut n1 = BroadcastNode::new("n1".to_string());
    let mut n2 = BroadcastNode::new("n2".to_string());
    let ack = n1.handle(msg("c1", "n1", topology(topo), Some(1)));
    assert!(matches!(ack[0].body.data, Broadcast::TopologyOk { in_reply_to: 1 }));
    n2.handle(msg("c1", "n2", topology(topo), Some(1)));
    n1.handle(msg("c1", "n1", Broadcast::Broadcast { message: 42 }, Some(2)));
    let gossip = n1.handle(msg("n1", "n1", Broadcast::TriggerGossip, None));
    assert_eq!(gossip.len(), 1);
    assert_eq!(gossip[0].src, "n1");
    assert_eq!(gossip[0].dst, "n2");
    assert_eq!(gossip[0].body.msg_id, None);
    deliver(gossip, "n2", &mut n2);
    assert!(read(&mut n2).contains(&42));
}

#[test]
fn gossip_is_silent_before_topology() {
    let mut n = BroadcastNode::new("n1".to_string());
    n.handle(msg("c1", "n1", Broadcast::Broadcast { message: 7 }, Some(1)));
    assert!(n.handle(msg("n1", "n1", Broadcast::TriggerGossip, None)).is_empty());
    assert_eq!(read(&mut n), vec![7]);
}

#[test]
fn topology_without_own_entry_keeps_neighbours() {
    let mut n = BroadcastNode::new("n1".to_string());
    n.handle(msg("c1", "n1", topology(&[("n1", &["n2", "n3"])]), Some(1)));
    let out = n.handle(msg("c1", "n1", topology(&[("n2", &["n1"])]), Some(2)));
    assert!(matches!(out[0].body.data, Broadcast::TopologyOk { in_reply_to: 2 }));
    let gossip = n.handle(msg("n1", "n1", Broadcast::TriggerGossip, None));
    let dsts: Vec<String> = gossip.iter().map(|m| m.dst.clone()).collect();
    assert_eq!(dsts, vec!["n2".to_string(), "n3".to_string()]);
}

#[test]
fn gossip_carries_whole_seen_set() {
    let mut n = BroadcastNode::new("n1".to_string());
    n.handle(msg("c1", "n1", topology(&[("n1", &["n2", "n3"])]), Some(1)));
    for v in [3, 1, 2] {
        n.handle(msg("c1", "n1", Broadcast::Broadcast { message: v }, Some(v)));
    }
    let gossip = n.handle(msg("n1", "n1", Broadcast::TriggerGossip, None));
    assert_eq!(gossip.len(), 2);
    for m in gossip {
        match m.body.data {
            Broadcast::Gossip { seen } => assert_eq!(sorted(seen), vec![1, 2, 3]),
            _ => panic!("expected gossip"),
        }
    }
}

#[test]
fn merging_same_gossip_twice_equals_once() {
    let mut n = BroadcastNode::new("n1".to_string());
    n.handle(msg("c1", "n1", Broadcast::Broadcast { message: 1 }, Some(1)));
    let g = || msg("n2", "n1", Broadcast::Gossip { seen: vec![2, 3, 1] }, None);
    assert!(n.handle(g()).is_empty());
    let once = read(&mut n);
    assert!(n.handle(g()).is_empty());
    assert_eq!(read(&mut n), once);
    assert_eq!(once, vec![1, 2, 3]);
}

#[test]
fn gossip_converges_on_a_line() {
    let topo: &[(&str, &[&str])] = &[("a", &["b"]), ("b", &["a", "c"]), ("c", &["b"])];
    let ids = ["a", "b", "c"];
    let mut nodes: Vec<BroadcastNode> = ids.iter().map(|i| BroadcastNode::new(i.to_string())).collect();
    for (k, n) in nodes.iter_mut().enumerate() {
        n.handle(msg("c1", ids[k], topology(topo), Some(1)));
    }
    nodes[0].handle(msg("c1", "a", Broadcast::Broadcast { message: 10 }, Some(2)));
    nodes[2].handle(msg("c1", "c", Broadcast::Broadcast { message: 30 }, Some(2)));
    for _round in 0..2 {
        let mut sent = Vec::new();
        for n in nodes.iter_mut() {
            sent.extend(n.handle(msg("self", "self", Broadcast::TriggerGossip, None)));
        }
        for m in sent {
            let k = ids.iter().position(|i| *i == m.dst).unwrap();
            nodes[k].handle(m);
        }
    }
    for n in nodes.iter_mut() {
        assert_eq!(read(n), vec![10, 30]);
    }
}

#[test]
fn stray_acknowledgements_pass_through() {
    let mut n = BroadcastNode::new("n1".to_string());
    let out = n.handle(msg("n2", "n1", Broadcast::BroadcastOk { in_reply_to: 4 }, Some(8)));
    assert_eq!(out.len(), 1);
    assert_eq!(out[0].dst, "n2");
    assert!(matches!(out[0].body.data, Broadcast::BroadcastOk { in_reply_to: 4 }));
    let out = n.handle(msg("n2", "n1", Broadcast::TopologyOk { in_reply_to: 5 }, None));
    assert!(matches!(out[0].body.data, Broadcast::TopologyOk { in_reply_to: 5 }));
    assert!(read(&mut n).is_empty());
}

#[test]
fn quit_stops_the_timer() {
    let mut n = BroadcastNode::new("n1".to_string());
    assert!(!n.is_stopped());
    assert!(n.handle(msg("n1", "n1", Broadcast::Quit, None)).is_empty());
    assert!(n.is_stopped());
    n.handle(msg("n1", "n1", Broadcast::Quit, None));
    assert!(n.is_stopped());
}
