use rustic_io::handshake::{
    accept_key, accept_reply, handshake_reply, websocket_keys, Handshake, RequestHeader,
    ReturnHeader,
};

const REQUEST: &str = "GET /chat HTTP/1.1\r\nHost: server.example.com\r\nUpgrade: websocket\r\nConnection: Upgrade\r\nSec-WebSocket-Key: dGhlIHNhbXBsZSBub25jZQ==\r\nOrigin: http://example.com\r\nSec-WebSocket-Version: 13\r\n\r\n";

#[test]
fn parse_request_fields() {
    let h = RequestHeader::new(REQUEST);
    assert_eq!(h.host, "server.example.com");
    assert_eq!(h.upgrade, "websocket");
    assert_eq!(h.connection, "Upgrade");
    assert_eq!(h.sec_websocket_key, "dGhlIHNhbXBsZSBub25jZQ==");
    assert_eq!(h.origin, "http://example.com");
    assert_eq!(h.sec_websocket_version, "13");
    assert_eq!(h.pragma, "");
    assert_eq!(h.user_agent, "");
    assert!(h.is_valid());
}

#[test]
fn parse_takes_second_word_only() {
    let h = RequestHeader::new("User-Agent: Mozilla/5.0 (X11)\r\nCache-Control: no-cache");
    assert_eq!(h.user_agent, "Mozilla/5.0");
    assert_eq!(h.cache_control, "no-cache");
}

#[test]
fn parse_later_line_wins() {
    let h = RequestHeader::new("Sec-WebSocket-Key: first\r\nSec-WebSocket-Key: second\r\n");
    assert_eq!(h.sec_websocket_key, "second");
}

#[test]
fn parse_empty_value_and_unknown_lines() {
    let h = RequestHeader::new("Host: \r\nX-Other: y\r\nPragma");
    assert_eq!(h.host, "");
    assert_eq!(h.pragma, "");
    assert!(!h.is_valid());
}

#[test]
fn parse_rejects_header_name_without_value() {
    assert!(RequestHeader::parse("Host: a\r\nSec-WebSocket-Key:").is_none());
    assert!(RequestHeader::parse("Sec-WebSocket-Key:\r\nHost: a").is_none());
    assert!(RequestHeader::parse("Sec-WebSocket-Key: \r\n").is_some());
}

#[test]
fn blank_header_is_not_valid() {
    assert!(!RequestHeader::blank().is_valid());
}

#[test]
fn rfc_accept_key() {
    assert_eq!(accept_key("dGhlIHNhbXBsZSBub25jZQ=="), "s3pPLMBiTxaQ9kYGzzhZRbK+xOo=");
}

#[test]
fn accept_header_text() {
    let h = ReturnHeader::new_accept("dGhlIHNhbXBsZSBub25jZQ==");
    assert_eq!(h.heading, "HTTP/1.1 101 Switching Protocols\r\n");
    assert_eq!(h.sec_websocket_accept, "s3pPLMBiTxaQ9kYGzzhZRbK+xOo=");
    assert_eq!(
        h.to_string(),
        "HTTP/1.1 101 Switching Protocols\r\nUpgrade: websocket\r\nConnection: Upgrade\r\nSec-WebSocket-Accept: s3pPLMBiTxaQ9kYGzzhZRbK+xOo=\r\n\r\n"
    );
}

#[test]
fn reject_header_text() {
    let h = ReturnHeader::new_reject();
    assert_eq!(h.heading, "");
    assert_eq!(h.to_string(), "Sec-WebSocket-Accept: \r\n\r\n");
}

#[test]
fn with_accept_carries_value() {
    assert_eq!(ReturnHeader::with_accept("abc".to_string()).sec_websocket_accept, "abc");
}

#[test]
fn first_version_reply_text() {
    assert_eq!(
        accept_reply("s3pPLMBiTxaQ9kYGzzhZRbK+xOo="),
        "HTTP/1.1 101 Switching Protocols\r\nUpgrade: websocket\r\nConnection: Upgrade\r\nSec-WebSocket-Accept: s3pPLMBiTxaQ9kYGzzhZRbK+xOo=\r\n\r\n"
    );
}

#[test]
fn websocket_key_lines() {
    let (keys, stopped) = websocket_keys(REQUEST);
    assert_eq!(keys, vec!["dGhlIHNhbXBsZSBub25jZQ==".to_string()]);
    assert!(!stopped);
    let (keys, stopped) = websocket_keys("Sec-WebSocket-Key: a b\r\nSec-WebSocket-Key: c\r\nSec-WebSocket-Key:\r\nSec-WebSocket-Key: d");
    assert_eq!(keys, vec!["a".to_string(), "c".to_string()]);
    assert!(stopped);
}

#[test]
fn handshake_outcomes() {
    match handshake_reply(REQUEST.as_bytes()) {
        Handshake::Accept(text) => assert!(text.contains("Sec-WebSocket-Accept: s3pPLMBiTxaQ9kYGzzhZRbK+xOo=\r\n\r\n")),
        _ => panic!("expected an accepting answer"),
    }
    assert!(matches!(handshake_reply(&[0xff, 0xfe]), Handshake::NotText));
    assert!(matches!(handshake_reply(b"Host: a\r\nUpgrade:"), Handshake::Malformed));
    assert!(matches!(handshake_reply(b"GET / HTTP/1.1\r\nHost: a\r\n\r\n"), Handshake::Rejected));
}

#[test]
fn handshake_on_zero_padded_buffer() {
    let mut buffer = [0u8; 512];
    buffer[..REQUEST.len()].copy_from_slice(REQUEST.as_bytes());
    assert!(matches!(handshake_reply(&buffer), Handshake::Accept(_)));
}

#[test]
fn last_key_line_decides_validity() {
    assert!(!RequestHeader::new("Sec-WebSocket-Key: abc\r\nSec-WebSocket-Key: \r\n").is_valid());
    assert!(RequestHeader::new("Sec-WebSocket-Key: \r\nSec-WebSocket-Key: abc").is_valid());
}

#[test]
fn accept_value_shape() {
    for key in ["", "x", "dGhlIHNhbXBsZSBub25jZQ==", "a key with spaces"] {
        let v = accept_key(key);
        assert_eq!(v.len(), 28);
        assert!(v[..27].chars().all(|c| c.is_ascii_alphanumeric() || c == '+' || c == '/'));
        assert!(v.ends_with('='));
    }
}

#[test]
fn reject_header_is_blank() {
    let h = ReturnHeader::new_reject();
    assert_eq!(h.heading, "");
    assert_eq!(h.upgrade, "");
    assert_eq!(h.connection, "");
    assert_eq!(h.sec_websocket_accept, "");
}

#[test]
fn string_of_takes_exact_chars() {
    let v: Vec<char> = "héllo".chars().collect();
    assert_eq!(rustic_io::text::string_of(&v, 1, 4), "éll");
}

#[test]
fn unknown_line_changes_nothing() {
    let head = "Host: h\r\nSec-WebSocket-Key: k";
    for line in ["GET / HTTP/1.1", "Accept: */*", ""] {
        let a = RequestHeader::new(head);
        let b = RequestHeader::new(&format!("{}\r\n{}", head, line));
        assert_eq!(a.host, b.host);
        assert_eq!(a.sec_websocket_key, b.sec_websocket_key);
        assert_eq!(a.user_agent, b.user_agent);
    }
}

#[test]
fn accept_lines_same_for_every_key() {
    let a = ReturnHeader::new_accept("one");
    let b = ReturnHeader::new_accept("two");
    assert_eq!((a.heading, a.upgrade, a.connection), (b.heading, b.upgrade, b.connection));
}
