use cluster_nodes::counter::{Counter, CounterNode, ExternalInternal, Internal};
use cluster_nodes::message::{Handler, Message, Payload};

fn ext(src: &str, dst: &str, data: Counter, msg_id: Option<usize>) -> ExternalInternal {
    ExternalInternal::External(Message::new(src.to_string(), dst.to_string(), Payload::new(data, msg_id)))
}

fn node(id: &str, all: &[&str]) -> CounterNode {
    CounterNode::new(id.to_string(), all.iter().map(|s| s.to_string()).collect())
}

fn read(n: &mut CounterNode) -> usize {
    let out = n.handle(ext("c1", "n", Counter::Read, Some(4)));
    assert_eq!(out.len(), 1);
    match out[0].body.data {
        Counter::ReadOk { value, in_reply_to } => {
            assert_eq!(in_reply_to, 4);
            value
        }
        _ => panic!("expected read_ok"),
    }
}

#[test]
fn new_node_knows_every_other_member_at_zero() {
    let n = node("n2", &["n1", "n2", "n3", "n1"]);
    assert_eq!(n.peer_value(&"n1".to_string()), Some(0));
    assert_eq!(n.peer_value(&"n3".to_string()), Some(0));
    assert_eq!(n.peer_value(&"n2".to_string()), None);
    assert_eq!(n.local_value(), 0);
    assert!(n.is_timer_live());
}

#[test]
fn fresh_node_reads_zero() {
    let mut n = node("n2", &["n1", "n2", "n3"]);
    assert_eq!(read(&mut n), 0);
}

#[test]
fn add_is_acknowledged() {
    let mut n = node("n1", &["n1", "n2"]);
    let out = n.handle(ext("c1", "n1", Counter::Add { delta: 5 }, Some(11)));
    assert_eq!(out.len(), 1);
    assert_eq!(out[0].src, "n1");
    assert_eq!(out[0].dst, "c1");
    assert_eq!(out[0].body.msg_id, Some(11));
    assert!(matches!(out[0].body.data, Counter::AddOk { in_reply_to: 11 }));
    assert_eq!(n.local_value(), 5);
}

#[test]
fn counter_aggregation_example() {
    let all = ["n1", "n2", "n3"];
    let mut n1 = node("n1", &all);
    let mut n2 = node("n2", &all);
    n1.handle(ext("c1", "n1", Counter::Add { delta: 5 }, Some(1)));
    n1.handle(ext("c1", "n1", Counter::Add { delta: 3 }, Some(2)));
    assert_eq!(read(&mut n1), 8);
    let pushed = n1.handle(ExternalInternal::Internal(Internal::TriggerDispatch));
    let dsts: Vec<&str> = pushed.iter().map(|m| m.dst.as_str()).collect();
    assert_eq!(dsts, vec!["n2", "n3"]);
    for m in pushed {
        assert_eq!(m.src, "n1");
        assert_eq!(m.body.msg_id, None);
        assert!(matches!(m.body.data, Counter::Current { value: 8 }));
        if m.dst == "n2" {
            assert!(n2.handle(ExternalInternal::External(m)).is_empty());
        }
    }
    assert_eq!(n2.peer_value(&"n1".to_string()), Some(8));
    assert_eq!(read(&mut n2), 8);
}

#[test]
fn current_from_unknown_peer_is_ignored() {
    let mut n = node("n1", &["n1", "n2"]);
    n.handle(ext("n2", "n1", Counter::Current { value: 4 }, None));
    let out = n.handle(ext("n9", "n1", Counter::Current { value: 100 }, None));
    assert!(out.is_empty());
    assert_eq!(n.peer_value(&"n9".to_string()), None);
    assert_eq!(read(&mut n), 4);
}

#[test]
fn read_never_decreases_as_counts_arrive() {
    let mut n = node("n1", &["n1", "n2", "n3"]);
    let mut last = read(&mut n);
    let events = vec![
        ext("c1", "n1", Counter::Add { delta: 2 }, Some(1)),
        ext("n2", "n1", Counter::Current { value: 3 }, None),
        ext("n3", "n1", Counter::Current { value: 1 }, None),
        ExternalInternal::Internal(Internal::TriggerDispatch),
        ext("n2", "n1", Counter::Current { value: 7 }, None),
        ext("c1", "n1", Counter::Add { delta: 1 }, Some(2)),
    ];
    for e in events {
        n.handle(e);
        let now = read(&mut n);
        assert!(now >= last);
        last = now;
    }
    assert_eq!(last, 3 + 7 + 1);
}

#[test]
fn stray_acknowledgements_are_ignored() {
    let mut n = node("n1", &["n1", "n2"]);
    assert!(n.handle(ext("n2", "n1", Counter::AddOk { in_reply_to: 1 }, None)).is_empty());
    assert!(n.handle(ext("n2", "n1", Counter::ReadOk { value: 9, in_reply_to: 1 }, None)).is_empty());
    assert_eq!(read(&mut n), 0);
}

#[test]
fn terminate_stops_timer_once_and_for_all() {
    let mut n = node("n1", &["n1", "n2"]);
    assert!(n.handle(ExternalInternal::Internal(Internal::TerminateDispatcher)).is_empty());
    assert!(!n.is_timer_live());
    assert!(n.handle(ExternalInternal::Internal(Internal::TerminateDispatcher)).is_empty());
    assert!(!n.is_timer_live());
}

#[test]
fn overflowing_add_is_refused_up_front() {
    let mut n = node("n1", &["n1"]);
    n.handle(ext("c1", "n1", Counter::Add { delta: usize::MAX - 1 }, Some(1)));
    assert!(n.fits_event(&ext("c1", "n1", Counter::Add { delta: 1 }, Some(2))));
    assert!(!n.fits_event(&ext("c1", "n1", Counter::Add { delta: 2 }, Some(2))));
}

#[test]
fn overflowing_read_is_refused_up_front() {
    let mut n = node("n1", &["n1", "n2"]);
    n.handle(ext("c1", "n1", Counter::Add { delta: usize::MAX }, Some(1)));
    assert!(n.fits_event(&ext("c1", "n1", Counter::Read, Some(2))));
    n.handle(ext("n2", "n1", Counter::Current { value: 1 }, None));
    assert!(!n.fits_event(&ext("c1", "n1", Counter::Read, Some(2))));
}
