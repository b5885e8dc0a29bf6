use maelstorm_challenge::gossip_node::{
    BroadcastNode, Event, RequestDetail, ResponseDetail, SYNC_PERIOD_MS,
};
use maelstorm_challenge::message::{InitDetails, Input, Message, MessageBody, NodeInit};
use maelstorm_challenge::node::{Node, Output};
use maelstorm_challenge::topology::Topology;
use std::collections::HashSet;

fn request(src: &str, dest: &str, msg_id: Option<usize>, detail: RequestDetail) -> Message<RequestDetail> {
    Message {
        src: src.to_string(),
        dest: dest.to_string(),
        body: MessageBody { msg_id, in_reply_to: None, detail },
    }
}

fn topology(links: &[(&str, &[&str])]) -> Topology {
    let mut topology = Topology::new();
    for (node, neighbors) in links {
        topology.insert(node.to_string(), neighbors.iter().map(|n| n.to_string()).collect());
    }
    topology
}

fn line() -> Topology {
    topology(&[("a", &["b"]), ("b", &["a", "c"]), ("c", &["b"])])
}

fn started(name: &str) -> BroadcastNode {
    let mut node = BroadcastNode::new();
    node.on_init(&NodeInit { node_id: name.to_string(), node_ids: vec![name.to_string()] });
    node
}

fn ask(node: &mut BroadcastNode, message: Message<RequestDetail>) -> Message<ResponseDetail> {
    let input = Input::Request(message);
    assert!(node.admits(&input));
    match node.process(input) {
        Output::Reply(reply) => reply,
        _ => panic!("a request is answered with a reply"),
    }
}

fn read(node: &mut BroadcastNode) -> HashSet<usize> {
    let name = node.get_name().to_string();
    match ask(node, request("c1", &name, Some(9), RequestDetail::Read)).body.detail {
        ResponseDetail::ReadOk { messages } => messages,
        _ => panic!("read is answered with read_ok"),
    }
}

fn broadcast(node: &mut BroadcastNode, value: usize) {
    let name = node.get_name().to_string();
    let reply = ask(node, request("c1", &name, Some(1), RequestDetail::Broadcast { message: value }));
    assert!(matches!(reply.body.detail, ResponseDetail::BroadcastOk));
}

fn install(node: &mut BroadcastNode, links: Topology) {
    let name = node.get_name().to_string();
    let reply = ask(node, request("c0", &name, Some(1), RequestDetail::Topology { topology: links }));
    assert!(matches!(reply.body.detail, ResponseDetail::TopologyOk));
}

fn tick(node: &mut BroadcastNode) -> Vec<Message<RequestDetail>> {
    let input = Input::Event(Event::Sync);
    assert!(node.admits(&input));
    match node.process(input) {
        Output::Requests(sent) => sent,
        _ => panic!("an event yields requests"),
    }
}

fn gossip_of(message: &Message<RequestDetail>) -> HashSet<usize> {
    match &message.body.detail {
        RequestDetail::Gossip { ids } => ids.iter().copied().collect(),
        _ => panic!("a tick sends gossip only"),
    }
}

fn find<'a>(nodes: &'a mut Vec<BroadcastNode>, name: &str) -> &'a mut BroadcastNode {
    nodes.iter_mut().find(|node| node.get_name() == name).expect("the node exists")
}

/// One round on a network that delivers everything: every node's timer fires,
/// every gossip message arrives and every reply to it comes back.
fn round(nodes: &mut Vec<BroadcastNode>) -> usize {
    let mut sent = Vec::new();
    for node in nodes.iter_mut() {
        sent.extend(tick(node));
    }
    let count = sent.len();
    for message in sent {
        let sender = message.src.clone();
        let receiver = message.dest.clone();
        let reply = ask(find(nodes, &receiver), message);
        assert_eq!(reply.dest, sender);
        assert_eq!(reply.src, receiver);
        let input = Input::Response(reply);
        let back = find(nodes, &sender);
        assert!(back.admits(&input));
        assert!(matches!(back.process(input), Output::Nothing));
    }
    count
}

#[test]
fn the_handshake_names_the_node_and_asks_for_the_timer() {
    let mut node = BroadcastNode::new();
    let timer = node
        .on_init(&NodeInit { node_id: "n1".to_string(), node_ids: vec!["n1".to_string()] })
        .expect("the broadcast node runs a timer");
    assert_eq!(timer.period_ms, 300);
    assert_eq!(SYNC_PERIOD_MS, 300);
    assert!(matches!(timer.event, Event::Sync));
    assert_eq!(node.get_name(), "n1");
    assert!(node.ids().is_empty());
    assert!(node.topology().is_none());
}

#[test]
fn the_handshake_message_is_acknowledged_and_starts_the_timer() {
    let mut node = BroadcastNode::new();
    let hello = Message {
        src: "c0".to_string(),
        dest: "n4".to_string(),
        body: MessageBody {
            msg_id: Some(1),
            in_reply_to: None,
            detail: InitDetails::Init(NodeInit {
                node_id: "n4".to_string(),
                node_ids: vec!["n1".to_string(), "n4".to_string()],
            }),
        },
    };
    assert!(hello.can_reply());
    let (reply, timer) = node.init(&hello);
    assert!(matches!(reply.body.detail, InitDetails::InitOk));
    assert_eq!(reply.src, "n4");
    assert_eq!(reply.dest, "c0");
    assert_eq!(reply.body.in_reply_to, Some(1));
    assert_eq!(reply.body.msg_id, Some(2));
    assert_eq!(timer.expect("the broadcast node runs a timer").period_ms, 300);
    assert_eq!(node.get_name(), "n4");
}

#[test]
fn a_broadcast_is_answered_and_kept() {
    let mut node = started("n1");
    let reply = ask(&mut node, request("c1", "n1", Some(1), RequestDetail::Broadcast { message: 7 }));
    assert!(matches!(reply.body.detail, ResponseDetail::BroadcastOk));
    assert_eq!(reply.src, "n1");
    assert_eq!(reply.dest, "c1");
    assert_eq!(reply.body.in_reply_to, Some(1));
    assert_eq!(reply.body.msg_id, Some(2));
    assert_eq!(node.ids(), &HashSet::from([7]));
}

#[test]
fn broadcasting_a_value_twice_keeps_it_once() {
    let mut node = started("n1");
    broadcast(&mut node, 5);
    let after_first = read(&mut node);
    broadcast(&mut node, 5);
    assert_eq!(read(&mut node), after_first);
    for _ in 0..20 {
        broadcast(&mut node, 5);
    }
    let values = read(&mut node);
    assert_eq!(values, HashSet::from([5]));
    assert_eq!(values.len(), 1);
}

#[test]
fn the_values_only_grow() {
    let mut node = started("b");
    install(&mut node, line());
    let mut before = read(&mut node);
    for step in 0..12usize {
        match step % 4 {
            0 => broadcast(&mut node, step),
            1 => {
                let ids = HashSet::from([step, 100 + step]);
                ask(&mut node, request("a", "b", None, RequestDetail::Gossip { ids }));
            }
            2 => {
                let ids = HashSet::from([200 + step]);
                let response = Message {
                    src: "c".to_string(),
                    dest: "b".to_string(),
                    body: MessageBody {
                        msg_id: None,
                        in_reply_to: None,
                        detail: ResponseDetail::GossipOk { ids },
                    },
                };
                node.process(Input::Response(response));
            }
            _ => {
                tick(&mut node);
            }
        }
        let after = read(&mut node);
        assert!(before.is_subset(&after));
        before = after;
    }
    assert_eq!(
        before,
        HashSet::from([0, 4, 8, 1, 101, 5, 105, 9, 109, 202, 206, 210])
    );
}

#[test]
fn read_gives_a_snapshot() {
    let mut node = started("n1");
    broadcast(&mut node, 1);
    let snapshot = read(&mut node);
    broadcast(&mut node, 2);
    assert_eq!(snapshot, HashSet::from([1]));
    assert_eq!(read(&mut node), HashSet::from([1, 2]));
}

#[test]
fn without_a_topology_nothing_is_gossiped() {
    let mut node = started("n1");
    broadcast(&mut node, 7);
    assert_eq!(read(&mut node), HashSet::from([7]));
    for _ in 0..3 {
        assert!(tick(&mut node).is_empty());
    }
    assert_eq!(read(&mut node), HashSet::from([7]));
}

#[test]
fn before_the_handshake_a_tick_without_topology_is_silent() {
    let mut node = BroadcastNode::new();
    assert!(tick(&mut node).is_empty());
}

#[test]
fn the_topology_seeds_an_empty_estimate_for_every_name() {
    let mut node = started("a");
    assert!(node.known(&"b".to_string()).is_none());
    install(&mut node, topology(&[("a", &["b"]), ("b", &["a", "x"])]));
    for name in ["a", "b", "x"] {
        let known = node.known(&name.to_string()).expect("every name is seeded");
        assert!(known.is_empty());
    }
    assert!(node.known(&"y".to_string()).is_none());
    assert!(node.topology().is_some());
}

#[test]
fn a_new_topology_keeps_the_estimates() {
    let mut node = started("a");
    install(&mut node, topology(&[("a", &["b"]), ("z", &[])]));
    ask(&mut node, request("b", "a", None, RequestDetail::Gossip { ids: HashSet::from([1]) }));
    ask(&mut node, request("z", "a", None, RequestDetail::Gossip { ids: HashSet::from([2]) }));
    assert_eq!(node.known(&"b".to_string()), Some(&HashSet::from([1])));
    install(&mut node, topology(&[("a", &["b", "c"])]));
    assert_eq!(node.known(&"a".to_string()), Some(&HashSet::new()));
    assert_eq!(node.known(&"b".to_string()), Some(&HashSet::from([1])));
    assert_eq!(node.known(&"c".to_string()), Some(&HashSet::new()));
    assert_eq!(node.known(&"z".to_string()), Some(&HashSet::from([2])));
    assert_eq!(read(&mut node), HashSet::from([1, 2]));
}

#[test]
fn the_same_topology_again_changes_nothing() {
    let mut node = started("n1");
    install(&mut node, topology(&[("n1", &["x"]), ("x", &["n1"])]));
    ask(&mut node, request("x", "n1", None, RequestDetail::Gossip { ids: HashSet::from([1, 2]) }));
    install(&mut node, topology(&[("n1", &["x"]), ("x", &["n1"])]));
    assert_eq!(node.known(&"x".to_string()), Some(&HashSet::from([1, 2])));
    assert_eq!(node.known(&"n1".to_string()), Some(&HashSet::new()));
    assert_eq!(read(&mut node), HashSet::from([1, 2]));
    assert!(tick(&mut node).is_empty());
}

#[test]
fn the_estimates_only_grow() {
    let mut node = started("b");
    install(&mut node, line());
    let mut before: HashSet<usize> = HashSet::new();
    for step in 0..12usize {
        match step % 4 {
            0 => broadcast(&mut node, step),
            1 => {
                let ids = HashSet::from([step, 100 + step]);
                ask(&mut node, request("a", "b", None, RequestDetail::Gossip { ids }));
            }
            2 => install(&mut node, line()),
            _ => {
                tick(&mut node);
            }
        }
        let after = node.known(&"a".to_string()).expect("the estimate stays").clone();
        assert!(before.is_subset(&after));
        before = after;
    }
    assert_eq!(before, HashSet::from([1, 101, 5, 105, 9, 109]));
}

#[test]
fn gossip_from_a_neighbor_is_taken_in_and_answered_with_all_values() {
    let mut node = started("n1");
    install(&mut node, topology(&[("n1", &["x"]), ("x", &["n1"])]));
    let reply = ask(
        &mut node,
        request("x", "n1", None, RequestDetail::Gossip { ids: HashSet::from([1, 2]) }),
    );
    match reply.body.detail {
        ResponseDetail::GossipOk { ids } => assert_eq!(ids, HashSet::from([1, 2])),
        _ => panic!("gossip is answered with gossip_ok"),
    }
    assert_eq!(reply.src, "n1");
    assert_eq!(reply.dest, "x");
    assert_eq!(reply.body.msg_id, Some(0));
    assert_eq!(reply.body.in_reply_to, None);
    assert_eq!(read(&mut node), HashSet::from([1, 2]));
    assert_eq!(node.known(&"x".to_string()), Some(&HashSet::from([1, 2])));
    assert_eq!(node.known(&"n1".to_string()), Some(&HashSet::new()));
}

#[test]
fn the_reply_to_gossip_carries_what_was_held_before_too() {
    let mut node = started("b");
    install(&mut node, line());
    broadcast(&mut node, 10);
    let reply = ask(
        &mut node,
        request("a", "b", Some(4), RequestDetail::Gossip { ids: HashSet::from([11]) }),
    );
    match reply.body.detail {
        ResponseDetail::GossipOk { ids } => assert_eq!(ids, HashSet::from([10, 11])),
        _ => panic!("gossip is answered with gossip_ok"),
    }
    assert_eq!(reply.body.in_reply_to, Some(4));
    assert_eq!(reply.body.msg_id, Some(5));
    assert_eq!(node.known(&"a".to_string()), Some(&HashSet::from([11])));
    assert_eq!(node.known(&"c".to_string()), Some(&HashSet::new()));
}

#[test]
fn gossip_from_a_node_without_estimate_is_not_admitted() {
    let mut node = started("a");
    let early = Input::Request(request(
        "b",
        "a",
        None,
        RequestDetail::Gossip { ids: HashSet::from([1]) },
    ));
    assert!(!node.admits(&early));
    install(&mut node, line());
    assert!(node.admits(&early));
    let stranger = Input::Request(request(
        "q",
        "a",
        None,
        RequestDetail::Gossip { ids: HashSet::from([1]) },
    ));
    assert!(!node.admits(&stranger));
}

#[test]
fn only_a_gossip_reply_is_admitted_as_a_response() {
    let node = started("a");
    let response = |detail: ResponseDetail| -> Input<RequestDetail, ResponseDetail, Event> {
        Input::Response(Message {
            src: "b".to_string(),
            dest: "a".to_string(),
            body: MessageBody { msg_id: None, in_reply_to: None, detail },
        })
    };
    assert!(node.admits(&response(ResponseDetail::GossipOk { ids: HashSet::new() })));
    assert!(!node.admits(&response(ResponseDetail::TopologyOk)));
    assert!(!node.admits(&response(ResponseDetail::BroadcastOk)));
    assert!(!node.admits(&response(ResponseDetail::ReadOk { messages: HashSet::new() })));
}

#[test]
fn a_tick_needs_the_node_in_its_topology() {
    let mut unnamed = BroadcastNode::new();
    let links = Input::Request(request("c0", "a", Some(1), RequestDetail::Topology { topology: line() }));
    assert!(unnamed.admits(&links));
    unnamed.process(links);
    assert!(!unnamed.admits(&Input::Event(Event::Sync)));

    let mut outsider = started("q");
    install(&mut outsider, line());
    assert!(!outsider.admits(&Input::Event(Event::Sync)));

    let mut member = started("a");
    install(&mut member, line());
    assert!(member.admits(&Input::Event(Event::Sync)));
}

#[test]
fn a_gossip_reply_is_taken_in_without_a_word() {
    let mut node = started("a");
    install(&mut node, line());
    broadcast(&mut node, 1);
    let response = Input::Response(Message {
        src: "b".to_string(),
        dest: "a".to_string(),
        body: MessageBody {
            msg_id: None,
            in_reply_to: None,
            detail: ResponseDetail::GossipOk { ids: HashSet::from([1, 2, 3]) },
        },
    });
    assert!(matches!(node.process(response), Output::Nothing));
    assert_eq!(read(&mut node), HashSet::from([1, 2, 3]));
    assert_eq!(node.known(&"b".to_string()), Some(&HashSet::new()));
}

#[test]
fn a_tick_sends_each_neighbor_what_it_is_missing() {
    let mut node = started("b");
    install(&mut node, line());
    broadcast(&mut node, 1);
    broadcast(&mut node, 2);
    ask(&mut node, request("a", "b", None, RequestDetail::Gossip { ids: HashSet::from([2, 3]) }));
    let mut sent = tick(&mut node);
    sent.sort_by(|left, right| left.dest.cmp(&right.dest));
    assert_eq!(sent.len(), 2);
    assert_eq!(sent[0].src, "b");
    assert_eq!(sent[0].dest, "a");
    assert_eq!(sent[0].body.msg_id, None);
    assert_eq!(sent[0].body.in_reply_to, None);
    assert_eq!(gossip_of(&sent[0]), HashSet::from([1]));
    assert_eq!(sent[1].src, "b");
    assert_eq!(sent[1].dest, "c");
    assert_eq!(gossip_of(&sent[1]), HashSet::from([1, 2, 3]));
    assert_eq!(read(&mut node), HashSet::from([1, 2, 3]));
}

#[test]
fn a_neighbor_that_knows_everything_gets_nothing() {
    let mut node = started("b");
    install(&mut node, line());
    broadcast(&mut node, 1);
    broadcast(&mut node, 2);
    ask(&mut node, request("a", "b", None, RequestDetail::Gossip { ids: HashSet::from([1, 2]) }));
    assert_eq!(node.known(&"a".to_string()), Some(node.ids()));
    let sent = tick(&mut node);
    assert_eq!(sent.len(), 1);
    assert_eq!(sent[0].dest, "c");
    assert_eq!(gossip_of(&sent[0]), HashSet::from([1, 2]));
    ask(&mut node, request("c", "b", None, RequestDetail::Gossip { ids: HashSet::from([1, 2]) }));
    assert!(tick(&mut node).is_empty());
}

#[test]
fn a_node_without_values_sends_nothing() {
    let mut node = started("b");
    install(&mut node, line());
    assert!(tick(&mut node).is_empty());
}

#[test]
fn a_tick_repeats_until_the_neighbor_says_so_itself() {
    let mut node = started("a");
    install(&mut node, line());
    broadcast(&mut node, 42);
    for _ in 0..3 {
        let sent = tick(&mut node);
        assert_eq!(sent.len(), 1);
        assert_eq!(sent[0].dest, "b");
        assert_eq!(gossip_of(&sent[0]), HashSet::from([42]));
        let ack = Input::Response(Message {
            src: "b".to_string(),
            dest: "a".to_string(),
            body: MessageBody {
                msg_id: None,
                in_reply_to: None,
                detail: ResponseDetail::GossipOk { ids: HashSet::from([42]) },
            },
        });
        node.process(ack);
    }
    ask(&mut node, request("b", "a", None, RequestDetail::Gossip { ids: HashSet::from([42]) }));
    assert!(tick(&mut node).is_empty());
}

#[test]
fn one_exchange_leaves_the_sender_with_the_union() {
    let mut a = started("a");
    let mut b = started("b");
    install(&mut a, line());
    install(&mut b, line());
    broadcast(&mut a, 1);
    broadcast(&mut a, 2);
    broadcast(&mut b, 2);
    broadcast(&mut b, 3);
    let before_a = read(&mut a);
    let before_b = read(&mut b);
    let mut sent = tick(&mut a);
    assert_eq!(sent.len(), 1);
    let gossip = sent.pop().expect("one message");
    assert_eq!(gossip_of(&gossip), HashSet::from([1, 2]));
    let reply = ask(&mut b, gossip);
    a.process(Input::Response(reply));
    let after_a = read(&mut a);
    assert!(before_a.is_subset(&after_a));
    let union: HashSet<usize> = before_a.union(&before_b).copied().collect();
    assert_eq!(after_a, union);
    assert_eq!(after_a, HashSet::from([1, 2, 3]));
    assert_eq!(read(&mut b), HashSet::from([1, 2, 3]));
}

#[test]
fn a_value_crosses_a_line_of_three_in_two_rounds() {
    let mut nodes = vec![started("a"), started("b"), started("c")];
    for node in nodes.iter_mut() {
        install(node, line());
    }
    broadcast(find(&mut nodes, "a"), 42);
    assert_eq!(round(&mut nodes), 1);
    assert_eq!(read(find(&mut nodes, "a")), HashSet::from([42]));
    assert_eq!(read(find(&mut nodes, "b")), HashSet::from([42]));
    assert_eq!(read(find(&mut nodes, "c")), HashSet::new());
    round(&mut nodes);
    for name in ["a", "b", "c"] {
        assert_eq!(read(find(&mut nodes, name)), HashSet::from([42]));
    }
}

#[test]
fn values_from_both_ends_of_a_line_meet_everywhere() {
    let mut nodes = vec![started("a"), started("b"), started("c")];
    for node in nodes.iter_mut() {
        install(node, line());
    }
    broadcast(find(&mut nodes, "a"), 42);
    broadcast(find(&mut nodes, "c"), 43);
    round(&mut nodes);
    round(&mut nodes);
    for name in ["a", "b", "c"] {
        assert_eq!(read(find(&mut nodes, name)), HashSet::from([42, 43]));
    }
}

#[test]
fn a_node_goes_on_sending_what_its_neighbor_never_said_itself() {
    let mut nodes = vec![started("a"), started("b"), started("c")];
    for node in nodes.iter_mut() {
        install(node, line());
    }
    broadcast(find(&mut nodes, "a"), 42);
    broadcast(find(&mut nodes, "c"), 43);
    for _ in 0..4 {
        round(&mut nodes);
    }
    let a = find(&mut nodes, "a");
    assert_eq!(a.known(&"b".to_string()), Some(&HashSet::from([43])));
    let sent = tick(a);
    assert_eq!(sent.len(), 1);
    assert_eq!(sent[0].dest, "b");
    assert_eq!(gossip_of(&sent[0]), HashSet::from([42]));
}
