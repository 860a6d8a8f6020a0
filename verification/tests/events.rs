use rustic_io::action::{pool_step, Action, ActionKind, PoolCommand};
use rustic_io::eventloop::{add_socket, drop_socket, generate_socket_id, socket_index, take_action, SocketMessenger};
use rustic_io::frame::{Mask, Message, Payload};
use rustic_io::hash::{HashEngine, HashMethod};
use rustic_io::server::server_address;
use rustic_io::socket::{echo_reply, event_index, text_message, JsonMessage};
use std::sync::mpsc::channel;

fn messenger(id: &str) -> SocketMessenger {
    let (tx, _rx) = channel::<Message>();
    SocketMessenger { id: id.to_string(), to_socket: tx }
}

fn ids(v: &[SocketMessenger]) -> Vec<String> {
    v.iter().map(|m| m.id.clone()).collect()
}

#[test]
fn drop_socket_removes_first_match_only() {
    let mut v = Vec::new();
    for id in ["a", "b", "a", "c"] {
        add_socket(&mut v, messenger(id));
    }
    drop_socket(&mut v, &"a".to_string());
    assert_eq!(ids(&v), vec!["b", "a", "c"]);
    drop_socket(&mut v, &"z".to_string());
    assert_eq!(ids(&v), vec!["b", "a", "c"]);
    assert_eq!(socket_index(&v, &"c".to_string()), Some(2));
    assert_eq!(socket_index(&v, &"q".to_string()), None);
}

#[test]
fn socket_ids_have_fifteen_chars() {
    let id = generate_socket_id();
    assert_eq!(id.chars().count(), 15);
}

#[test]
fn action_kinds() {
    assert_eq!(Action::new("broadcast").kind(), ActionKind::Broadcast);
    assert_eq!(Action::new("drop_socket").kind(), ActionKind::DropSocket);
    assert_eq!(Action::new("other").kind(), ActionKind::Ignore);
    let b = Action::broadcast(text_message("x".to_string()));
    assert_eq!(b.kind(), ActionKind::Broadcast);
    let mut d = Action::new("drop_socket");
    d.socket_id = "id1".to_string();
    assert_eq!(d.kind(), ActionKind::DropSocket);
}

#[test]
fn default_action_message() {
    let a = Action::new("x");
    assert_eq!(a.event, "x");
    assert_eq!(a.socket_id, "");
    assert_eq!(a.message.mask, Mask::TextOp);
    match a.message.payload {
        Payload::Text(s) => assert_eq!(s, "blah, blah"),
        _ => panic!("expected text"),
    }
}

#[test]
fn pool_commands() {
    assert_eq!(PoolCommand::from_event("new_connection"), PoolCommand::AddConnection);
    assert_eq!(PoolCommand::from_event("drop_connection"), PoolCommand::DropConnection);
    assert_eq!(PoolCommand::from_event("send"), PoolCommand::Unknown);
}

#[test]
fn event_lookup_takes_first() {
    let names = vec!["hello".to_string(), "bye".to_string(), "hello".to_string()];
    assert_eq!(event_index(&names, &"hello".to_string()), Some(0));
    assert_eq!(event_index(&names, &"bye".to_string()), Some(1));
    assert_eq!(event_index(&names, &"x".to_string()), None);
}

#[test]
fn echo_replies() {
    let r = echo_reply(Payload::Text("hi".to_string())).unwrap();
    assert_eq!(r.mask, Mask::TextOp);
    match r.payload {
        Payload::Text(s) => assert_eq!(s, "Received: hi"),
        _ => panic!("expected text"),
    }
    let r = echo_reply(Payload::Binary(vec![1, 2])).unwrap();
    assert_eq!(r.mask, Mask::BinaryOp);
    assert!(echo_reply(Payload::Empty).is_none());
}

#[test]
fn json_envelope_and_text_message() {
    let j = JsonMessage::new("hello", "{\"a\":1}".to_string());
    assert_eq!(j.event, "hello");
    assert_eq!(j.data, "{\"a\":1}");
    let m = text_message("{}".to_string());
    assert_eq!(m.mask, Mask::TextOp);
    let mut out = Vec::new();
    m.send(&mut out);
    assert_eq!(out, vec![0x81, 2, b'{', b'}']);
}

#[test]
fn server_address_joins_ip_and_port() {
    assert_eq!(server_address("127.0.0.1", "1338"), "127.0.0.1:1338");
}

#[test]
fn hash_engine_sizes() {
    let e = HashEngine::new(HashMethod::SHA512);
    assert_eq!((e.digest_size, e.block_size), (64, 128));
    let e = HashEngine::new(HashMethod::SHA1);
    assert_eq!((e.digest_size, e.block_size), (20, 64));
    let e = HashEngine::new(HashMethod::MD5);
    assert_eq!((e.digest_size, e.block_size), (16, 64));
}

#[test]
fn hash_engine_md5() {
    let e = HashEngine::new(HashMethod::MD5);
    let d = e.hash(b"");
    assert_eq!(d, vec![0xd4, 0x1d, 0x8c, 0xd9, 0x8f, 0x00, 0xb2, 0x04, 0xe9, 0x80, 0x09, 0x98, 0xec, 0xf8, 0x42, 0x7e]);
    let d = e.hash(b"abc");
    assert_eq!(d[..4], [0x90, 0x01, 0x50, 0x98]);
}

#[test]
fn pool_steps() {
    let mut list: Vec<u32> = vec![1, 2, 3];
    let ids = vec!["a".to_string(), "b".to_string(), "a".to_string()];
    assert!(pool_step(&mut list, &ids, PoolCommand::DropConnection, 0, &"a".to_string()));
    assert_eq!(list, vec![2, 3]);
    let ids = vec!["b".to_string(), "a".to_string()];
    assert!(pool_step(&mut list, &ids, PoolCommand::DropConnection, 0, &"z".to_string()));
    assert_eq!(list, vec![2, 3]);
    assert!(pool_step(&mut list, &ids, PoolCommand::AddConnection, 9, &"c".to_string()));
    assert_eq!(list, vec![2, 3, 9]);
    let ids = vec!["b".to_string(), "a".to_string(), "c".to_string()];
    assert!(!pool_step(&mut list, &ids, PoolCommand::Unknown, 7, &"d".to_string()));
    assert_eq!(list, vec![2, 3, 9]);
}

#[test]
fn take_action_fans_out_and_drops() {
    let mut v = Vec::new();
    for id in ["a", "b", "c"] {
        add_socket(&mut v, messenger(id));
    }
    let b = Action::broadcast(text_message("x".to_string()));
    assert_eq!(take_action(&mut v, &b), vec![0, 1, 2]);
    assert_eq!(ids(&v), vec!["a", "b", "c"]);
    let mut d = Action::new("drop_socket");
    d.socket_id = "b".to_string();
    assert!(take_action(&mut v, &d).is_empty());
    assert_eq!(ids(&v), vec!["a", "c"]);
    assert!(take_action(&mut v, &Action::new("other")).is_empty());
    assert_eq!(ids(&v), vec!["a", "c"]);
}
