use rust_engan::echo::{EchoNode, EchoPayload};
use rust_engan::msg_set::MsgSet;
use rust_engan::protocol::{Body, Event, Message, NodeError};
use rust_engan::unique_ids::{UniqueNode, UniquePayload};

fn s(x: &str) -> String {
    x.to_string()
}

#[test]
fn msg_set_insert_and_contains() {
    let mut set = MsgSet::new();
    assert!(!set.contains(1));
    set.insert(1);
    set.insert(2);
    set.insert(1);
    assert!(set.contains(1));
    assert!(set.contains(2));
    assert!(!set.contains(3));
    let mut v = set.to_vec();
    v.sort();
    assert_eq!(v, vec![1, 2]);
}

#[test]
fn msg_set_extend_deduplicates() {
    let mut set = MsgSet::new();
    set.insert(2);
    set.extend_from(&vec![1, 2, 2, 3]);
    let mut v = set.to_vec();
    v.sort();
    assert_eq!(v, vec![1, 2, 3]);
}

#[test]
fn into_reply_swaps_and_correlates() {
    let m = Message {
        src: s("c1"),
        dst: s("n1"),
        body: Body { id: Some(7), in_reply_to: None, payload: 99usize },
    };
    let mut id: usize = 3;
    let r = m.into_reply(&mut id);
    assert_eq!(r.src, s("n1"));
    assert_eq!(r.dst, s("c1"));
    assert_eq!(r.body.id, Some(3));
    assert_eq!(r.body.in_reply_to, Some(7));
    assert_eq!(r.body.payload, 99usize);
    assert_eq!(id, 4);
}

fn echo_envelope(payload: EchoPayload) -> Message<EchoPayload> {
    Message {
        src: s("c1"),
        dst: s("n1"),
        body: Body { id: Some(5), in_reply_to: None, payload },
    }
}

#[test]
fn echo_answers_init() {
    let mut node = EchoNode { id: 0 };
    let r = node
        .step(echo_envelope(EchoPayload::Init { node_id: s("n1"), node_ids: vec![s("n1")] }))
        .expect("init must be answered");
    let rep = r.expect("init produces a reply");
    assert_eq!(rep.src, s("n1"));
    assert_eq!(rep.dst, s("c1"));
    assert_eq!(rep.body.id, Some(0));
    assert_eq!(rep.body.in_reply_to, Some(5));
    assert!(matches!(rep.body.payload, EchoPayload::InitOk));
    assert_eq!(node.id, 1);
}

#[test]
fn echo_echoes_the_text_back() {
    let mut node = EchoNode { id: 2 };
    let r = node
        .step(echo_envelope(EchoPayload::Echo { echo: s("hello there") }))
        .expect("echo must be answered");
    let rep = r.expect("echo produces a reply");
    assert_eq!(rep.body.id, Some(2));
    match rep.body.payload {
        EchoPayload::EchoOk { echo } => assert_eq!(echo, s("hello there")),
        _ => panic!("expected an echo_ok reply"),
    }
    assert_eq!(node.id, 3);
}

#[test]
fn echo_rejects_stray_init_ok() {
    let mut node = EchoNode { id: 2 };
    let r = node.step(echo_envelope(EchoPayload::InitOk));
    assert!(matches!(r, Err(NodeError::UnexpectedInitOk)));
    assert_eq!(node.id, 2);
}

#[test]
fn echo_ignores_stray_echo_ok() {
    let mut node = EchoNode { id: 2 };
    let r = node
        .step(echo_envelope(EchoPayload::EchoOk { echo: s("x") }))
        .expect("a stray echo_ok is ignored");
    assert!(r.is_none());
    assert_eq!(node.id, 2);
}

#[test]
fn unique_ids_join_node_and_counter() {
    let mut node = UniqueNode::from_init(s("n3"));
    let r = node
        .step(Event::Message(Message {
            src: s("c1"),
            dst: s("n3"),
            body: Body { id: Some(8), in_reply_to: None, payload: UniquePayload::Generate },
        }))
        .expect("generate must be answered");
    let rep = r.expect("generate produces a reply");
    assert_eq!(rep.src, s("n3"));
    assert_eq!(rep.dst, s("c1"));
    assert_eq!(rep.body.id, Some(1));
    assert_eq!(rep.body.in_reply_to, Some(8));
    match rep.body.payload {
        UniquePayload::GenerateOk { guid } => assert_eq!(guid, s("n3-2")),
        _ => panic!("expected a generate_ok reply"),
    }
    assert_eq!(node.id, 3);

    let r = node
        .step(Event::Message(Message {
            src: s("c1"),
            dst: s("n3"),
            body: Body { id: Some(9), in_reply_to: None, payload: UniquePayload::Generate },
        }))
        .expect("generate must be answered");
    match r.expect("generate produces a reply").body.payload {
        UniquePayload::GenerateOk { guid } => assert_eq!(guid, s("n3-4")),
        _ => panic!("expected a generate_ok reply"),
    }
}

#[test]
fn unique_ids_ignore_stray_generate_ok() {
    let mut node = UniqueNode::from_init(s("n3"));
    let r = node
        .step(Event::Message(Message {
            src: s("c1"),
            dst: s("n3"),
            body: Body {
                id: None,
                in_reply_to: None,
                payload: UniquePayload::GenerateOk { guid: s("z") },
            },
        }))
        .expect("a stray generate_ok is ignored");
    assert!(r.is_none());
    assert_eq!(node.id, 2);
}
