use maelstrom::codec::{decode_message, encode_message};
use maelstrom::{Body, Message, Payload};

fn msg(src: &str, dest: &str, body: Body) -> Message {
    Message { src: src.as_bytes().to_vec(), dst: dest.as_bytes().to_vec(), body }
}

#[test]
fn decode_init_line() {
    let line =
        br#"{"src":"c1","dest":"n1","body":{"type":"init","msg_id":1,"node_id":"n1","node_ids":["n1"]}}"#
        .to_vec();
    let m = decode_message(&line).expect("well-formed init line");
    assert_eq!(m.src, b"c1".to_vec());
    assert_eq!(m.dst, b"n1".to_vec());
    assert_eq!(m.body.id, Some(1));
    assert_eq!(m.body.in_reply_to, None);
    assert_eq!(
        m.body.payload,
        Payload::Init { node_id: b"n1".to_vec(), node_ids: vec![b"n1".to_vec()] }
    );
}

#[test]
fn decode_echo_line() {
    let line = br#"{"src":"c1","dest":"n1","body":{"type":"echo","msg_id":2,"echo":"hello"}}"#
        .to_vec();
    let m = decode_message(&line).expect("well-formed echo line");
    assert_eq!(m.body.payload, Payload::Echo { echo: b"hello".to_vec() });
}

#[test]
fn decode_accepts_any_member_order_and_whitespace() {
    let line =
        br#" { "body" : { "echo" : "x" , "type" : "echo" , "msg_id" : 7 } , "dest" : "n1" , "src" : "c1" } "#
        .to_vec();
    let m = decode_message(&line).expect("order and whitespace are free");
    assert_eq!(m.src, b"c1".to_vec());
    assert_eq!(m.body.id, Some(7));
    assert_eq!(m.body.payload, Payload::Echo { echo: b"x".to_vec() });
}

#[test]
fn decode_null_msg_id() {
    let line = br#"{"src":"a","dest":"b","body":{"type":"generate","msg_id":null}}"#.to_vec();
    let m = decode_message(&line).expect("null stands for an absent id");
    assert_eq!(m.body.id, None);
    assert_eq!(m.body.payload, Payload::Generate);
}

#[test]
fn encode_canonical_form() {
    let m = msg(
        "n1",
        "c1",
        Body { id: Some(1), in_reply_to: Some(1), payload: Payload::InitOk },
    );
    assert_eq!(
        encode_message(&m),
        br#"{"src":"n1","dest":"c1","body":{"msg_id":1,"in_reply_to":1,"type":"init_ok"}}"#
            .to_vec()
    );
}

#[test]
fn encode_omits_absent_counters() {
    let m = msg("a", "b", Body { id: None, in_reply_to: None, payload: Payload::Generate });
    assert_eq!(
        encode_message(&m),
        br#"{"src":"a","dest":"b","body":{"type":"generate"}}"#.to_vec()
    );
}

#[test]
fn round_trip_all_variants() {
    let payloads = vec![
        Payload::Init { node_id: b"n3".to_vec(), node_ids: vec![b"n1".to_vec(), b"n2".to_vec()] },
        Payload::InitOk,
        Payload::Echo { echo: b"please echo".to_vec() },
        Payload::EchoOk { echo: b"".to_vec() },
        Payload::Generate,
        Payload::GenerateOk { id: b"n1_123".to_vec() },
    ];
    for payload in payloads {
        let m = msg("c9", "n4", Body { id: Some(41), in_reply_to: Some(2), payload });
        let encoded = encode_message(&m);
        let back = decode_message(&encoded).expect("canonical form decodes");
        assert_eq!(back, m);
        assert_eq!(encode_message(&back), encoded);
    }
}

#[test]
fn round_trip_escapes_and_extremes() {
    let tricky: Vec<u8> = b"a\"b\\c\nd\te\rf\x08g\x0ch/".to_vec();
    let m = msg(
        "s",
        "d",
        Body { id: Some(u64::MAX), in_reply_to: None, payload: Payload::Echo { echo: tricky } },
    );
    let encoded = encode_message(&m);
    let back = decode_message(&encoded).expect("escaped form decodes");
    assert_eq!(back, m);
}

#[test]
fn decode_unescapes_standard_escapes() {
    let line = br#"{"src":"a","dest":"b","body":{"type":"echo","echo":"x\n\t\r\b\f\"\\\/y"}}"#
        .to_vec();
    let m = decode_message(&line).expect("escapes are understood");
    assert_eq!(
        m.body.payload,
        Payload::Echo { echo: b"x\n\t\r\x08\x0c\"\\/y".to_vec() }
    );
}

#[test]
fn decode_rejects_malformed_lines() {
    let bad: Vec<&[u8]> = vec![
        b"not json at all",
        b"",
        br#"{"src":"a","dest":"b"}"#,
        br#"{"src":"a","dest":"b","body":{}}"#,
        br#"{"src":"a","dest":"b","body":{"type":"unknown_cmd","msg_id":9}}"#,
        br#"{"src":"a","dest":"b","body":{"type":"echo"}}"#,
        br#"{"src":"a","dest":"b","body":{"type":"echo","echo":"x","extra":1}}"#,
        br#"{"src":"a","dest":"b","body":{"type":"echo","echo":"x","echo":"y"}}"#,
        br#"{"src":"a","src":"a2","dest":"b","body":{"type":"generate"}}"#,
        br#"{"src":a,"dest":"b","body":{"type":"generate"}}"#,
        br#"{"src":"a","dest":"b","body":{"type":"generate","msg_id":18446744073709551616}}"#,
        br#"{"src":"a","dest":"b","body":{"type":"generate","msg_id":true}}"#,
        br#"{"src":"a","dest":"b","body":{"type":"generate"}} trailing"#,
        br#"{"src":"a","dest":"b","body":{"type":"init","msg_id":1,"node_id":"n1","node_ids":[1]}}"#,
        br#"{"src":"a","dest":"b","body":{"type":"echo","echo":"bad \u0041 escape"}}"#,
        br#"{"src":"a","dest":"b","body":{"type":"echo","echo":"unterminated}"#,
    ];
    for line in bad {
        assert!(decode_message(&line.to_vec()).is_none(), "accepted: {:?}", line);
    }
}

#[test]
fn decode_empty_peer_list() {
    let line =
        br#"{"src":"c1","dest":"n1","body":{"type":"init","msg_id":1,"node_id":"n1","node_ids":[]}}"#
        .to_vec();
    let m = decode_message(&line).expect("an empty peer list is well-formed");
    assert_eq!(m.body.payload, Payload::Init { node_id: b"n1".to_vec(), node_ids: vec![] });
}

#[test]
fn decode_largest_counter() {
    let line =
        br#"{"src":"a","dest":"b","body":{"type":"generate","msg_id":18446744073709551615}}"#
        .to_vec();
    let m = decode_message(&line).expect("largest counter fits");
    assert_eq!(m.body.id, Some(u64::MAX));
}

#[test]
fn command_of_each_payload() {
    let b = |payload| Body { id: None, in_reply_to: None, payload };
    assert_eq!(b(Payload::Init { node_id: vec![], node_ids: vec![] }).command(),
        Some(b"init".to_vec()));
    assert_eq!(b(Payload::Echo { echo: vec![] }).command(), Some(b"echo".to_vec()));
    assert_eq!(b(Payload::Generate).command(), Some(b"generate".to_vec()));
    assert_eq!(b(Payload::InitOk).command(), None);
    assert_eq!(b(Payload::EchoOk { echo: vec![] }).command(), None);
    assert_eq!(b(Payload::GenerateOk { id: vec![] }).command(), None);
}
