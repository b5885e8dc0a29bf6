use maelstorm_challenge::echo;
use maelstorm_challenge::echo::EchoNode;
use maelstorm_challenge::message::{InitDetails, Input, Message, MessageBody, NodeInit};
use maelstorm_challenge::node::{Node, Output};
use maelstorm_challenge::serial::{MessageDetail, SerialNode};
use maelstorm_challenge::unique_ids;
use maelstorm_challenge::unique_ids::{push_decimal, UniqueIdsNode};

fn envelope<D>(src: &str, dest: &str, msg_id: Option<usize>, detail: D) -> Message<D> {
    Message {
        src: src.to_string(),
        dest: dest.to_string(),
        body: MessageBody { msg_id, in_reply_to: None, detail },
    }
}

fn init(node_id: &str) -> NodeInit {
    NodeInit { node_id: node_id.to_string(), node_ids: vec![node_id.to_string()] }
}

fn decimal(n: usize) -> String {
    let mut text = String::new();
    push_decimal(&mut text, n);
    text
}

fn generate(node: &mut UniqueIdsNode) -> String {
    let input = Input::Request(envelope("c1", "n1", Some(1), unique_ids::RequestDetail::Generate));
    assert!(node.admits(&input));
    match node.process(input) {
        Output::Reply(reply) => match reply.body.detail {
            unique_ids::ResponseDetail::GenerateOk { id } => id,
        },
        _ => panic!("a request is answered with a reply"),
    }
}

#[test]
fn echo_gives_the_text_back() {
    let mut node = EchoNode::new();
    assert!(node.on_init(&init("n1")).is_none());
    assert_eq!(node.get_name(), "n1");
    let input = Input::Request(envelope(
        "c1",
        "n1",
        Some(5),
        echo::RequestDetail::Echo { echo: "Please echo 35".to_string() },
    ));
    assert!(node.admits(&input));
    match node.process(input) {
        Output::Reply(reply) => {
            assert_eq!(reply.src, "n1");
            assert_eq!(reply.dest, "c1");
            assert_eq!(reply.body.msg_id, Some(6));
            assert_eq!(reply.body.in_reply_to, Some(5));
            match reply.body.detail {
                echo::ResponseDetail::EchoOk { echo } => assert_eq!(echo, "Please echo 35"),
            }
        }
        _ => panic!("a request is answered with a reply"),
    }
}

#[test]
fn echo_has_no_case_for_responses_and_events() {
    let node = EchoNode::new();
    let response: Input<echo::RequestDetail, echo::ResponseDetail, ()> = Input::Response(envelope(
        "n2",
        "n1",
        None,
        echo::ResponseDetail::EchoOk { echo: "x".to_string() },
    ));
    assert!(!node.admits(&response));
    assert!(!node.admits(&Input::Event(())));
}

#[test]
fn the_handshake_is_acknowledged() {
    let mut node = EchoNode::new();
    let message = envelope("c0", "n3", Some(1), InitDetails::Init(init("n3")));
    let (reply, timer) = node.init(&message);
    assert!(timer.is_none());
    assert!(matches!(reply.body.detail, InitDetails::InitOk));
    assert_eq!(reply.src, "n3");
    assert_eq!(reply.dest, "c0");
    assert_eq!(reply.body.in_reply_to, Some(1));
    assert_eq!(reply.body.msg_id, Some(2));
    assert_eq!(node.get_name(), "n3");
}

#[test]
fn send_makes_a_fresh_request_from_the_node() {
    let mut node = EchoNode::new();
    node.on_init(&init("n1"));
    let sent = node.send("n2".to_string(), echo::RequestDetail::Echo { echo: "hi".to_string() });
    assert_eq!(sent.src, "n1");
    assert_eq!(sent.dest, "n2");
    assert_eq!(sent.body.msg_id, None);
    assert_eq!(sent.body.in_reply_to, None);
    match sent.body.detail {
        echo::RequestDetail::Echo { echo } => assert_eq!(echo, "hi"),
    }
}

#[test]
fn decimal_numerals() {
    assert_eq!(decimal(0), "0");
    assert_eq!(decimal(7), "7");
    assert_eq!(decimal(9), "9");
    assert_eq!(decimal(10), "10");
    assert_eq!(decimal(109), "109");
    assert_eq!(decimal(1234567890), "1234567890");
    assert_eq!(decimal(usize::MAX), usize::MAX.to_string());
}

#[test]
fn push_decimal_appends() {
    let mut text = "n1-".to_string();
    push_decimal(&mut text, 42);
    assert_eq!(text, "n1-42");
}

#[test]
fn unique_ids_count_up_behind_the_name() {
    let mut node = UniqueIdsNode::new();
    node.on_init(&init("n2"));
    assert_eq!(generate(&mut node), "n2-0");
    assert_eq!(generate(&mut node), "n2-1");
    for _ in 2..10 {
        generate(&mut node);
    }
    assert_eq!(generate(&mut node), "n2-10");
}

#[test]
fn unique_ids_without_a_name_are_the_count() {
    let mut node = UniqueIdsNode::new();
    assert_eq!(generate(&mut node), "0");
    assert_eq!(generate(&mut node), "1");
}

#[test]
fn unique_ids_differ() {
    let mut node = UniqueIdsNode::new();
    node.on_init(&init("n1"));
    let mut seen = std::collections::HashSet::new();
    for _ in 0..200 {
        assert!(seen.insert(generate(&mut node)));
    }
}

#[test]
fn two_nodes_never_give_the_same_id() {
    let mut seen = std::collections::HashSet::new();
    for name in ["n", "n-1", "n-1-0", "n1", "n11", ""] {
        let mut node = UniqueIdsNode::new();
        node.on_init(&init(name));
        for _ in 0..120 {
            assert!(seen.insert(generate(&mut node)));
        }
    }
    assert!(seen.contains("n-10"));
    assert!(seen.contains("n-1-0"));
    assert!(seen.contains("n-1-0-0"));
    assert!(seen.contains("-0"));
}

#[test]
fn unique_ids_has_no_case_for_responses_and_events() {
    let node = UniqueIdsNode::new();
    let response: Input<unique_ids::RequestDetail, unique_ids::ResponseDetail, ()> =
        Input::Response(envelope(
            "n2",
            "n1",
            None,
            unique_ids::ResponseDetail::GenerateOk { id: "x".to_string() },
        ));
    assert!(!node.admits(&response));
    assert!(!node.admits(&Input::Event(())));
}

#[test]
fn the_serial_node_numbers_its_answers() {
    let mut node = SerialNode::new();
    let hello = envelope(
        "c0",
        "n1",
        Some(1),
        MessageDetail::Init { node_id: "n1".to_string(), node_ids: vec!["n1".to_string()] },
    );
    assert!(node.admits(&hello));
    let reply = node.step(hello);
    assert_eq!(reply.src, "n1");
    assert_eq!(reply.dest, "c0");
    assert_eq!(reply.body.msg_id, Some(0));
    assert_eq!(reply.body.in_reply_to, Some(1));
    assert!(matches!(reply.body.detail, MessageDetail::InitOk));

    let echo = envelope("c2", "n1", None, MessageDetail::Echo { echo: "again".to_string() });
    let reply = node.step(echo);
    assert_eq!(reply.src, "n1");
    assert_eq!(reply.dest, "c2");
    assert_eq!(reply.body.msg_id, Some(1));
    assert_eq!(reply.body.in_reply_to, None);
    match reply.body.detail {
        MessageDetail::EchoOk { echo } => assert_eq!(echo, "again"),
        _ => panic!("an echo is answered with echo_ok"),
    }
}

#[test]
fn the_serial_node_has_no_case_for_answers() {
    let node = SerialNode::new();
    assert!(!node.admits(&envelope("c0", "n1", Some(1), MessageDetail::InitOk)));
    assert!(!node.admits(&envelope(
        "c0",
        "n1",
        Some(1),
        MessageDetail::EchoOk { echo: "x".to_string() }
    )));
    assert!(node.admits(&envelope(
        "c0",
        "n1",
        Some(1),
        MessageDetail::Echo { echo: "x".to_string() }
    )));
}
