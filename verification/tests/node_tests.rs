use maelstrom::codec::decode_message;
use maelstrom::node::{AnyHandler, Dispatch, EchoHandler, GenerateHandler, Node};
use maelstrom::{Body, Message, Payload};

fn full_node() -> Node {
    let mut node = Node::default();
    node.register(AnyHandler::Echo(EchoHandler));
    node.register(AnyHandler::Generate(GenerateHandler));
    node
}

fn reply_of(d: Dispatch) -> Vec<u8> {
    match d {
        Dispatch::Reply(out) => out,
        _ => panic!("expected a reply"),
    }
}

#[test]
fn init_handshake() {
    let mut node = full_node();
    let line =
        br#"{"src":"c1","dest":"n1","body":{"type":"init","msg_id":1,"node_id":"n1","node_ids":["n1"]}}"#
        .to_vec();
    let out = reply_of(node.handle_line(&line));
    assert_eq!(
        out,
        br#"{"src":"n1","dest":"c1","body":{"msg_id":1,"in_reply_to":1,"type":"init_ok"}}"#
            .to_vec()
    );
    assert_eq!(node.state().node_id(), &b"n1".to_vec());
    assert_eq!(node.state().node_ids(), &vec![b"n1".to_vec()]);
}

#[test]
fn echo_round() {
    let mut node = full_node();
    let line = br#"{"src":"c1","dest":"n1","body":{"type":"echo","msg_id":2,"echo":"hello"}}"#
        .to_vec();
    let out = reply_of(node.handle_line(&line));
    assert_eq!(
        out,
        br#"{"src":"n1","dest":"c1","body":{"msg_id":2,"in_reply_to":2,"type":"echo_ok","echo":"hello"}}"#
            .to_vec()
    );
}

#[test]
fn echo_reply_echoes_and_references_the_request() {
    let mut node = full_node();
    let line = br#"{"src":"alice","dest":"bob","body":{"type":"echo","msg_id":77,"echo":"zig"}}"#
        .to_vec();
    let out = reply_of(node.handle_line(&line));
    let reply = decode_message(&out).expect("replies are well-formed");
    assert_eq!(reply.src, b"bob".to_vec());
    assert_eq!(reply.dst, b"alice".to_vec());
    assert_eq!(reply.body.in_reply_to, Some(77));
    assert_eq!(reply.body.payload, Payload::EchoOk { echo: b"zig".to_vec() });
}

#[test]
fn generate_after_init() {
    let mut node = full_node();
    let init =
        br#"{"src":"c1","dest":"n1","body":{"type":"init","msg_id":1,"node_id":"n1","node_ids":["n1"]}}"#
        .to_vec();
    reply_of(node.handle_line(&init));
    let line = br#"{"src":"c1","dest":"n1","body":{"type":"generate","msg_id":3}}"#.to_vec();
    let out = reply_of(node.handle_line(&line));
    let reply = decode_message(&out).expect("replies are well-formed");
    assert_eq!(reply.src, b"n1".to_vec());
    assert_eq!(reply.dst, b"c1".to_vec());
    assert_eq!(reply.body.in_reply_to, Some(3));
    match reply.body.payload {
        Payload::GenerateOk { id } => {
            assert!(id.starts_with(b"n1_"), "id is the node's name and a timestamp");
            assert!(id.len() > 3 && id[3..].iter().all(|c| c.is_ascii_digit()));
        },
        p => panic!("expected generate_ok, got {:?}", p),
    }
}

#[test]
fn malformed_line_produces_no_output_and_loop_goes_on() {
    let mut node = full_node();
    assert!(matches!(node.handle_line(&b"not json at all".to_vec()), Dispatch::Malformed));
    // the next line is served as if nothing had happened
    let line = br#"{"src":"c1","dest":"n1","body":{"type":"echo","msg_id":5,"echo":"up"}}"#
        .to_vec();
    assert!(matches!(node.handle_line(&line), Dispatch::Reply(_)));
}

#[test]
fn unknown_command_produces_no_output_and_loop_goes_on() {
    let mut node = full_node();
    let line = br#"{"src":"c1","dest":"n1","body":{"type":"unknown_cmd","msg_id":9}}"#.to_vec();
    assert!(matches!(node.handle_line(&line), Dispatch::Malformed));
    let next = br#"{"src":"c1","dest":"n1","body":{"type":"echo","msg_id":6,"echo":"on"}}"#
        .to_vec();
    assert!(matches!(node.handle_line(&next), Dispatch::Reply(_)));
}

#[test]
fn reply_only_payloads_are_not_routed() {
    let mut node = full_node();
    let line = br#"{"src":"c1","dest":"n1","body":{"type":"echo_ok","msg_id":4,"echo":"x"}}"#
        .to_vec();
    assert!(matches!(node.handle_line(&line), Dispatch::Unroutable));
}

#[test]
fn unregistered_command_is_reported() {
    let mut node = Node::default();
    let line = br#"{"src":"c1","dest":"n1","body":{"type":"echo","msg_id":2,"echo":"hi"}}"#
        .to_vec();
    match node.handle_line(&line) {
        Dispatch::NoHandler(cmd) => assert_eq!(cmd, b"echo".to_vec()),
        _ => panic!("echo is not registered on a bare node"),
    }
}

#[test]
fn init_overwrites_earlier_init() {
    let mut node = full_node();
    let first =
        br#"{"src":"c1","dest":"n1","body":{"type":"init","msg_id":1,"node_id":"n1","node_ids":["n1"]}}"#
        .to_vec();
    let second =
        br#"{"src":"c1","dest":"n2","body":{"type":"init","msg_id":2,"node_id":"n2","node_ids":["n2","n3"]}}"#
        .to_vec();
    reply_of(node.handle_line(&first));
    reply_of(node.handle_line(&second));
    assert_eq!(node.state().node_id(), &b"n2".to_vec());
    assert_eq!(node.state().node_ids(), &vec![b"n2".to_vec(), b"n3".to_vec()]);
}

#[test]
fn handlers_do_not_touch_state_except_init() {
    let mut node = full_node();
    let init =
        br#"{"src":"c1","dest":"n1","body":{"type":"init","msg_id":1,"node_id":"n1","node_ids":["n1"]}}"#
        .to_vec();
    reply_of(node.handle_line(&init));
    let echo = br#"{"src":"c1","dest":"n1","body":{"type":"echo","msg_id":2,"echo":"e"}}"#
        .to_vec();
    reply_of(node.handle_line(&echo));
    let gen = br#"{"src":"c1","dest":"n1","body":{"type":"generate","msg_id":3}}"#.to_vec();
    reply_of(node.handle_line(&gen));
    assert_eq!(node.state().node_id(), &b"n1".to_vec());
}

#[test]
fn uninitialised_generate_still_answers() {
    // ordering is the harness's business: generate before init sees empty state
    let mut node = full_node();
    let line = br#"{"src":"c1","dest":"n1","body":{"type":"generate","msg_id":8}}"#.to_vec();
    let out = reply_of(node.handle_line(&line));
    let reply = decode_message(&out).expect("replies are well-formed");
    match reply.body.payload {
        Payload::GenerateOk { id } => assert_eq!(id[0], b'_'),
        p => panic!("expected generate_ok, got {:?}", p),
    }
}

#[test]
fn registering_again_replaces() {
    // registering under an already taken name routes the command to the new
    // handler: echo requests are then answered by the handler registered last
    let mut node = Node::default();
    node.register(AnyHandler::Echo(EchoHandler));
    node.register(AnyHandler::Echo(EchoHandler));
    let line = br#"{"src":"c1","dest":"n1","body":{"type":"echo","msg_id":2,"echo":"hi"}}"#
        .to_vec();
    assert!(matches!(node.handle_line(&line), Dispatch::Reply(_)));
}

#[test]
fn messages_built_in_code_travel_like_lines() {
    let m = Message {
        src: b"c1".to_vec(),
        dst: b"n1".to_vec(),
        body: Body { id: Some(2), in_reply_to: None, payload: Payload::Echo { echo: b"hello".to_vec() } },
    };
    let line = br#"{"src":"c1","dest":"n1","body":{"msg_id":2,"type":"echo","echo":"hello"}}"#
        .to_vec();
    assert_eq!(decode_message(&line).expect("well-formed"), m);
}
