use rustic_io::frame::{LoadError, Mask, Message, Opcode, Payload};

fn text(s: &str) -> Message {
    Message { payload: Payload::Text(s.to_string()), mask: Mask::TextOp }
}

fn sent(m: &Message) -> Vec<u8> {
    let mut out = Vec::new();
    m.send(&mut out);
    out
}

/// The frame a client would send for the server frame `frame` with `key`.
fn client_frame(frame: &[u8], key: [u8; 4]) -> Vec<u8> {
    let ext = match frame[1] & 0x7f {
        127 => 8,
        126 => 2,
        _ => 0,
    };
    let header = 2 + ext;
    let mut out = frame[..header].to_vec();
    out[1] |= 0x80;
    out.extend_from_slice(&key);
    for (i, b) in frame[header..].iter().enumerate() {
        out.push(b ^ key[i % 4]);
    }
    out
}

#[test]
fn send_short_text_frame() {
    assert_eq!(sent(&text("Hello")), vec![0x81, 0x05, b'H', b'e', b'l', b'l', b'o']);
}

#[test]
fn send_binary_frame() {
    let m = Message { payload: Payload::Binary(vec![1, 2, 3]), mask: Mask::BinaryOp };
    assert_eq!(sent(&m), vec![0x82, 0x03, 1, 2, 3]);
}

#[test]
fn send_close_frame() {
    let m = Message { payload: Payload::Empty, mask: Mask::CloseOp };
    assert_eq!(sent(&m), vec![0x88, 0x00]);
}

#[test]
fn send_appends_to_buffer() {
    let mut out = vec![9u8];
    text("a").send(&mut out);
    assert_eq!(out, vec![9, 0x81, 0x01, b'a']);
}

#[test]
fn send_length_boundaries() {
    let m125 = Message { payload: Payload::Binary(vec![7; 125]), mask: Mask::BinaryOp };
    let f = sent(&m125);
    assert_eq!(&f[..2], &[0x82, 125]);
    assert_eq!(f.len(), 127);

    let m126 = Message { payload: Payload::Binary(vec![7; 126]), mask: Mask::BinaryOp };
    let f = sent(&m126);
    assert_eq!(&f[..4], &[0x82, 126, 0, 126]);
    assert_eq!(f.len(), 130);

    let m65535 = Message { payload: Payload::Binary(vec![7; 65535]), mask: Mask::BinaryOp };
    let f = sent(&m65535);
    assert_eq!(&f[..4], &[0x82, 126, 0xff, 0xff]);

    let m65536 = Message { payload: Payload::Binary(vec![7; 65536]), mask: Mask::BinaryOp };
    let f = sent(&m65536);
    assert_eq!(&f[..10], &[0x82, 127, 0, 0, 0, 0, 0, 1, 0, 0]);
    assert_eq!(f.len(), 65546);
}

#[test]
fn send_text_counts_utf8_bytes() {
    let f = sent(&text("é"));
    assert_eq!(f, vec![0x81, 0x02, 0xc3, 0xa9]);
}

#[test]
fn load_rfc_masked_hello() {
    // RFC 6455, section 5.7: a single-frame masked text message.
    let frame = [0x81, 0x85, 0x37, 0xfa, 0x21, 0x3d, 0x7f, 0x9f, 0x4d, 0x51, 0x58];
    match Message::load(&frame) {
        Ok((m, n)) => {
            assert_eq!(n, 11);
            assert_eq!(m.mask, Mask::TextOp);
            match m.payload {
                Payload::Text(s) => assert_eq!(s, "Hello"),
                _ => panic!("expected text"),
            }
        }
        Err(e) => panic!("unexpected {:?}", e),
    }
}

#[test]
fn load_reads_back_client_frames() {
    let key = [0x12, 0x34, 0x56, 0x78];
    for len in [0usize, 5, 125, 126, 300, 65535, 65536] {
        let m = Message { payload: Payload::Binary((0..len).map(|i| i as u8).collect()), mask: Mask::BinaryOp };
        let mut f = client_frame(&sent(&m), key);
        let frame_len = f.len();
        f.extend_from_slice(&[0xaa, 0xbb]);
        let (back, n) = Message::load(&f).unwrap();
        assert_eq!(n, frame_len);
        assert_eq!(back.mask, Mask::BinaryOp);
        match back.payload {
            Payload::Binary(b) => assert_eq!(b, (0..len).map(|i| i as u8).collect::<Vec<u8>>()),
            _ => panic!("expected bytes"),
        }
    }
    let t = text("grüße, ✓");
    let (back, _) = Message::load(&client_frame(&sent(&t), key)).unwrap();
    match back.payload {
        Payload::Text(s) => assert_eq!(s, "grüße, ✓"),
        _ => panic!("expected text"),
    }
    let c = Message { payload: Payload::Empty, mask: Mask::CloseOp };
    let (back, n) = Message::load(&client_frame(&sent(&c), key)).unwrap();
    assert_eq!(n, 6);
    assert_eq!(back.mask, Mask::CloseOp);
    assert!(matches!(back.payload, Payload::Empty));
}

#[test]
fn load_close_discards_payload() {
    let f = [0x88, 0x82, 0, 0, 0, 0, 0x03, 0xe8];
    let (m, n) = Message::load(&f).unwrap();
    assert_eq!(n, 8);
    assert!(matches!(m.payload, Payload::Empty));
}

#[test]
fn load_incomplete() {
    assert_eq!(Message::load(&[]).unwrap_err(), LoadError::Incomplete);
    assert_eq!(Message::load(&[0x81]).unwrap_err(), LoadError::Incomplete);
    assert_eq!(Message::load(&[0x81, 0x85, 1, 2, 3]).unwrap_err(), LoadError::Incomplete);
    assert_eq!(Message::load(&[0x81, 0x85, 1, 2, 3, 4, 5]).unwrap_err(), LoadError::Incomplete);
    assert_eq!(Message::load(&[0x82, 0xfe, 0x01]).unwrap_err(), LoadError::Incomplete);
}

#[test]
fn load_unknown_opcode_before_length() {
    assert_eq!(Message::load(&[0x89, 0x80]).unwrap_err(), LoadError::UnknownOpcode(9));
    assert_eq!(Message::load(&[0x83, 0xff]).unwrap_err(), LoadError::UnknownOpcode(3));
}

#[test]
fn load_continuation_unsupported() {
    assert_eq!(Message::load(&[0x80, 0x80, 0, 0, 0, 0]).unwrap_err(), LoadError::Unsupported);
}

#[test]
fn load_invalid_utf8() {
    assert_eq!(Message::load(&[0x81, 0x81, 0, 0, 0, 0, 0xff]).unwrap_err(), LoadError::InvalidUtf8);
}

#[test]
fn load_ignores_mask_bit_and_unmasks_with_key() {
    // Mask bit clear: a key is still read and applied.
    let f = [0x82, 0x02, 0xff, 0x0f, 0, 0, 0x0f, 0xff];
    let (m, _) = Message::load(&f).unwrap();
    match m.payload {
        Payload::Binary(b) => assert_eq!(b, vec![0xf0, 0xf0]),
        _ => panic!("expected bytes"),
    }
}

#[test]
fn unmask_twice_is_identity() {
    let p = [1u8, 2, 3, 4, 5, 6, 7];
    let key = [9u8, 8, 7, 6];
    let once = rustic_io::frame::unmask_payload(&p, &key);
    assert_eq!(once, vec![1 ^ 9, 2 ^ 8, 3 ^ 7, 4 ^ 6, 5 ^ 9, 6 ^ 8, 7 ^ 7]);
    assert_eq!(rustic_io::frame::unmask_payload(&once, &key), p.to_vec());
}

#[test]
fn header_helpers() {
    assert_eq!(rustic_io::frame::extended_length_size(0x7e), 2);
    assert_eq!(rustic_io::frame::extended_length_size(0xff), 8);
    assert_eq!(rustic_io::frame::extended_length_size(0x85), 0);
    assert_eq!(rustic_io::frame::payload_length(&[0x81, 0x7e, 0x01, 0x00]), 256);
    assert_eq!(rustic_io::frame::payload_length(&[0x81, 0xff, 0, 0, 0, 0, 0, 1, 0, 0]), 65536);
    assert_eq!(rustic_io::frame::payload_length(&[0x81, 0x85]), 5);
}

#[test]
fn opcodes_and_masks() {
    assert_eq!(Opcode::from_u8(9), Some(Opcode::PingOp));
    assert_eq!(Opcode::from_u8(10), Some(Opcode::PongOp));
    assert_eq!(Opcode::from_u8(3), None);
    assert_eq!(Opcode::PongOp.code(), 10);
    assert_eq!(Opcode::PingOp.mask(), None);
    assert_eq!(Opcode::CloseOp.mask(), Some(Mask::CloseOp));
    assert_eq!(Mask::from_code(8), Some(Mask::CloseOp));
    assert_eq!(Mask::from_code(9), None);
    assert_eq!(Mask::BinaryOp.code(), 2);
}

#[test]
fn load_reads_server_frame_with_zero_key() {
    let m = text("zero key");
    let f = sent(&m);
    let mut g = f[..2].to_vec();
    g.extend_from_slice(&[0, 0, 0, 0]);
    g.extend_from_slice(&f[2..]);
    g.push(0x42);
    let (back, n) = Message::load(&g).unwrap();
    assert_eq!(n, f.len() + 4);
    match back.payload {
        Payload::Text(s) => assert_eq!(s, "zero key"),
        _ => panic!("expected text"),
    }
}
