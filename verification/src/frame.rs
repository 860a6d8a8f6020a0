//! WebSocket data frames (RFC 6455, section 5): the frame kinds a message can
//! carry, the server-side encoder and the decoder of client frames.
use vstd::prelude::*;
use vstd::string::*;
use vstd::utf8::*;
use crate::text::string_from_utf8;

verus! {

/// The kind of data a message carries, as written in the opcode nibble.
#[derive(Clone, Copy, Debug, PartialEq, Eq, Structural)]
pub enum Mask {
    ContinuationOp,
    TextOp,
    BinaryOp,
    CloseOp,
}

impl Mask {
    /// The opcode nibble of this kind.
    pub open spec fn code_of(self) -> u8 {
        match self {
            Mask::ContinuationOp => 0,
            Mask::TextOp => 1,
            Mask::BinaryOp => 2,
            Mask::CloseOp => 8,
        }
    }

    /// The kind whose opcode nibble is `c`, if there is one.
    pub open spec fn of_code(c: u8) -> Option<Mask> {
        if c == 0 {
            Some(Mask::ContinuationOp)
        } else if c == 1 {
            Some(Mask::TextOp)
        } else if c == 2 {
            Some(Mask::BinaryOp)
        } else if c == 8 {
            Some(Mask::CloseOp)
        } else {
            None
        }
    }

    pub fn code(&self) -> (c: u8)
        ensures
            c == self.code_of(),
    {
        match self {
            Mask::ContinuationOp => 0,
            Mask::TextOp => 1,
            Mask::BinaryOp => 2,
            Mask::CloseOp => 8,
        }
    }

    pub fn from_code(c: u8) -> (m: Option<Mask>)
        ensures
            m == Mask::of_code(c),
    {
        if c == 0 {
            Some(Mask::ContinuationOp)
        } else if c == 1 {
            Some(Mask::TextOp)
        } else if c == 2 {
            Some(Mask::BinaryOp)
        } else if c == 8 {
            Some(Mask::CloseOp)
        } else {
            None
        }
    }
}

/// The full set of opcodes of RFC 6455, control frames included.
#[derive(Clone, Copy, Debug, PartialEq, Eq, Structural)]
pub enum Opcode {
    ContinuationOp,
    TextOp,
    BinaryOp,
    CloseOp,
    PingOp,
    PongOp,
}

impl Opcode {
    pub open spec fn code_of(self) -> u8 {
        match self {
            Opcode::ContinuationOp => 0,
            Opcode::TextOp => 1,
            Opcode::BinaryOp => 2,
            Opcode::CloseOp => 8,
            Opcode::PingOp => 9,
            Opcode::PongOp => 10,
        }
    }

    pub open spec fn of_code(c: u8) -> Option<Opcode> {
        if c == 0 {
            Some(Opcode::ContinuationOp)
        } else if c == 1 {
            Some(Opcode::TextOp)
        } else if c == 2 {
            Some(Opcode::BinaryOp)
        } else if c == 8 {
            Some(Opcode::CloseOp)
        } else if c == 9 {
            Some(Opcode::PingOp)
        } else if c == 10 {
            Some(Opcode::PongOp)
        } else {
            None
        }
    }

    /// The message kind of this opcode; control frames other than close have none.
    pub open spec fn mask_of(self) -> Option<Mask> {
        match self {
            Opcode::ContinuationOp => Some(Mask::ContinuationOp),
            Opcode::TextOp => Some(Mask::TextOp),
            Opcode::BinaryOp => Some(Mask::BinaryOp),
            Opcode::CloseOp => Some(Mask::CloseOp),
            _ => None,
        }
    }

    pub fn code(&self) -> (c: u8)
        ensures
            c == self.code_of(),
    {
        match self {
            Opcode::ContinuationOp => 0,
            Opcode::TextOp => 1,
            Opcode::BinaryOp => 2,
            Opcode::CloseOp => 8,
            Opcode::PingOp => 9,
            Opcode::PongOp => 10,
        }
    }

    pub fn from_u8(c: u8) -> (o: Option<Opcode>)
        ensures
            o == Opcode::of_code(c),
    {
        if c == 0 {
            Some(Opcode::ContinuationOp)
        } else if c == 1 {
            Some(Opcode::TextOp)
        } else if c == 2 {
            Some(Opcode::BinaryOp)
        } else if c == 8 {
            Some(Opcode::CloseOp)
        } else if c == 9 {
            Some(Opcode::PingOp)
        } else if c == 10 {
            Some(Opcode::PongOp)
        } else {
            None
        }
    }

    pub fn mask(&self) -> (m: Option<Mask>)
        ensures
            m == self.mask_of(),
    {
        match self {
            Opcode::ContinuationOp => Some(Mask::ContinuationOp),
            Opcode::TextOp => Some(Mask::TextOp),
            Opcode::BinaryOp => Some(Mask::BinaryOp),
            Opcode::CloseOp => Some(Mask::CloseOp),
            _ => None,
        }
    }
}

/// The data of a message.
#[derive(Clone, Debug)]
pub enum Payload {
    Text(String),
    Binary(Vec<u8>),
    Empty,
}

/// The mathematical content of a payload.
pub enum PayloadView {
    Text(Seq<char>),
    Binary(Seq<u8>),
    Empty,
}

impl PayloadView {
    /// The bytes that carry this payload on the wire.
    pub open spec fn wire_bytes(self) -> Seq<u8> {
        match self {
            PayloadView::Text(s) => encode_utf8(s),
            PayloadView::Binary(b) => b,
            PayloadView::Empty => Seq::empty(),
        }
    }
}

impl View for Payload {
    type V = PayloadView;

    open spec fn view(&self) -> PayloadView {
        match self {
            Payload::Text(s) => PayloadView::Text(s@),
            Payload::Binary(b) => PayloadView::Binary(b@),
            Payload::Empty => PayloadView::Empty,
        }
    }
}

/// A WebSocket message: a payload and the kind of frame that carries it.
#[derive(Clone, Debug)]
pub struct Message {
    pub payload: Payload,
    pub mask: Mask,
}

pub struct MessageView {
    pub payload: PayloadView,
    pub mask: Mask,
}

impl View for Message {
    type V = MessageView;

    open spec fn view(&self) -> MessageView {
        MessageView { payload: self.payload@, mask: self.mask }
    }
}

/// `n` written big-endian in `k` bytes (the high part of `n` beyond `k` bytes is dropped).
pub open spec fn be_bytes(n: nat, k: nat) -> Seq<u8>
    decreases k,
{
    if k == 0 {
        Seq::empty()
    } else {
        be_bytes(n / 256, (k - 1) as nat).push((n % 256) as u8)
    }
}

/// The number that the bytes `b` spell big-endian.
pub open spec fn be_value(b: Seq<u8>) -> nat
    decreases b.len(),
{
    if b.len() == 0 {
        0
    } else {
        (be_value(b.drop_last()) * 256 + b.last()) as nat
    }
}

/// 256 to the power `k`.
pub open spec fn pow256(k: nat) -> nat
    decreases k,
{
    if k == 0 {
        1
    } else {
        256 * pow256((k - 1) as nat)
    }
}

/// The length part of a server frame header: the second header byte and the
/// extended length that follows it.
pub open spec fn length_field(n: nat) -> Seq<u8> {
    if n <= 125 {
        seq![n as u8]
    } else if n <= 65535 {
        seq![126u8] + be_bytes(n, 2)
    } else {
        seq![127u8] + be_bytes(n, 8)
    }
}

/// The frame a server writes for a message: FIN set, no mask, the minimal length form.
pub open spec fn frame_bytes(m: MessageView) -> Seq<u8> {
    seq![(128 + m.mask.code_of()) as u8] + length_field(m.payload.wire_bytes().len())
        + m.payload.wire_bytes()
}

impl Message {
    /// Appends the frame for this message to `out`.
    pub fn send(&self, out: &mut Vec<u8>)
        requires
            self@.payload.wire_bytes().len() <= u64::MAX,
        ensures
            final(out)@ == old(out)@ + frame_bytes(self@),
            final(out)@[old(out)@.len() as int] == 128 + self.mask.code_of(),
    {
        let bytes: &[u8] = match &self.payload {
            Payload::Text(p) => p.as_str().as_bytes(),
            Payload::Binary(p) => p.as_slice(),
            Payload::Empty => &[],
        };
        assert(bytes@ == self@.payload.wire_bytes());
        let payload_length = bytes.len();
        let code = self.mask.code();
        let first: u8 = 0b1000_0000 | code;
        assert(first == 128 + code) by (bit_vector)
            requires
                first == 0b1000_0000u8 | code,
                code < 128,
        ;
        let ghost start = out@;
        out.push(first);
        if payload_length <= 125 {
            out.push(payload_length as u8);
        } else if payload_length <= 65535 {
            out.push(126);
            push_be(out, payload_length as u64, 2);
        } else {
            out.push(127);
            push_be(out, payload_length as u64, 8);
        }
        assert(out@ == start + seq![first] + length_field(payload_length as nat));
        let mut i: usize = 0;
        while i < payload_length
            invariant
                i <= payload_length,
                payload_length == bytes@.len(),
                out@ == start + seq![first] + length_field(payload_length as nat) + bytes@.take(
                    i as int,
                ),
            decreases payload_length - i,
        {
            out.push(bytes[i]);
            assert(bytes@.take(i + 1) == bytes@.take(i as int).push(bytes@[i as int]));
            i = i + 1;
        }
        assert(bytes@.take(payload_length as int) == bytes@);
        proof {
            lemma_frame_header(self@);
        }
    }
}

/// Appends `n` big-endian in `k` bytes.
fn push_be(out: &mut Vec<u8>, n: u64, k: usize)
    requires
        k <= 8,
    ensures
        final(out)@ == old(out)@ + be_bytes(n as nat, k as nat),
{
    let mut digits: Vec<u8> = Vec::new();
    let mut m: u64 = n;
    let mut j: usize = k;
    while j > 0
        invariant
            j <= k,
            be_bytes(n as nat, k as nat) == be_bytes(m as nat, j as nat) + digits@,
        decreases j,
    {
        let d = (m % 256) as u8;
        proof {
            assert(be_bytes(m as nat, j as nat) == be_bytes((m / 256) as nat, (j - 1) as nat).push(d));
            assert(be_bytes((m / 256) as nat, (j - 1) as nat).push(d) + digits@ == be_bytes(
                (m / 256) as nat,
                (j - 1) as nat,
            ) + digits@.insert(0, d));
        }
        digits.insert(0, d);
        m = m / 256;
        j = j - 1;
    }
    assert(be_bytes(m as nat, 0) + digits@ == digits@);
    out.append(&mut digits);
}


/// Why a buffer does not hold a frame that can be read as a message.
#[derive(Clone, Copy, Debug, PartialEq, Eq, Structural)]
pub enum LoadError {
    /// The buffer ends before the frame does.
    Incomplete,
    /// The opcode nibble names no message kind.
    UnknownOpcode(u8),
    /// A continuation frame: fragmented messages are not supported.
    Unsupported,
    /// A text frame whose unmasked payload is not UTF-8.
    InvalidUtf8,
}

/// How many extended-length bytes follow the second header byte `b1`.
pub open spec fn ext_len_size(b1: u8) -> nat {
    let l = b1 % 128;
    if l == 127 {
        8
    } else if l == 126 {
        2
    } else {
        0
    }
}

/// The payload length a frame header declares (the buffer holds the extended length).
pub open spec fn declared_len(b: Seq<u8>) -> nat {
    let l = b[1] % 128;
    if l == 127 {
        be_value(b.subrange(2, 10))
    } else if l == 126 {
        be_value(b.subrange(2, 4))
    } else {
        l as nat
    }
}

/// `p` XORed byte by byte with the four-byte masking key, cycling through it.
pub open spec fn unmask(p: Seq<u8>, key: Seq<u8>) -> Seq<u8> {
    Seq::new(p.len(), |i: int| p[i] ^ key[i % 4])
}

/// The message a payload of kind `mask` decodes to.
pub open spec fn decode_payload(mask: Mask, p: Seq<u8>) -> Result<MessageView, LoadError> {
    match mask {
        Mask::TextOp => if valid_utf8(p) {
            Ok(MessageView { payload: PayloadView::Text(decode_utf8(p)), mask })
        } else {
            Err(LoadError::InvalidUtf8)
        },
        Mask::BinaryOp => Ok(MessageView { payload: PayloadView::Binary(p), mask }),
        Mask::CloseOp => Ok(MessageView { payload: PayloadView::Empty, mask }),
        Mask::ContinuationOp => Err(LoadError::Unsupported),
    }
}

/// What reading one client frame from the front of `b` gives: the message and
/// the number of bytes the frame takes, or why there is none. The header is
/// always followed by a four-byte masking key.
pub open spec fn load_result(b: Seq<u8>) -> Result<(MessageView, nat), LoadError> {
    if b.len() < 2 {
        Err(LoadError::Incomplete)
    } else if Mask::of_code(b[0] % 16) is None {
        Err(LoadError::UnknownOpcode(b[0] % 16))
    } else if b.len() < 2 + ext_len_size(b[1]) + 4 {
        Err(LoadError::Incomplete)
    } else {
        let key_at: int = 2 + ext_len_size(b[1]) as int;
        let h: int = key_at + 4;
        let n: int = declared_len(b) as int;
        if b.len() < h + n {
            Err(LoadError::Incomplete)
        } else {
            let p = unmask(b.subrange(h, h + n), b.subrange(key_at, h));
            match decode_payload(Mask::of_code(b[0] % 16).unwrap(), p) {
                Ok(m) => Ok((m, (h + n) as nat)),
                Err(e) => Err(e),
            }
        }
    }
}

/// The number of extended-length bytes after the second header byte.
pub fn extended_length_size(b1: u8) -> (k: usize)
    ensures
        k == ext_len_size(b1),
{
    let l = b1 & 0b0111_1111;
    assert(l == b1 % 128) by (bit_vector)
        requires
            l == b1 & 0x7f,
    ;
    if l == 127 {
        8
    } else if l == 126 {
        2
    } else {
        0
    }
}

/// Reads the big-endian number in `b[start..start + k]`.
fn read_be(b: &[u8], start: usize, k: usize) -> (v: u64)
    requires
        k <= 8,
        start + k <= b@.len(),
    ensures
        v == be_value(b@.subrange(start as int, start + k)),
{
    let mut v: u64 = 0;
    let mut i: usize = 0;
    while i < k
        invariant
            i <= k <= 8,
            start + k <= b.len(),
            v == be_value(b@.subrange(start as int, start + i)),
            v < pow256(i as nat),
        decreases k - i,
    {
        proof {
            let s = b@.subrange(start as int, start + i + 1);
            assert(s.drop_last() == b@.subrange(start as int, start + i));
            lemma_pow256_bound(i as nat);
            assert(v * 256 + 255 < pow256((i + 1) as nat));
        }
        v = v * 256 + b[start + i] as u64;
        i = i + 1;
    }
    v
}

proof fn lemma_pow256_bound(i: nat)
    requires
        i < 8,
    ensures
        pow256(i) * 256 == pow256(i + 1),
        pow256(i + 1) <= pow256(8),
        pow256(8) == 0x1_0000_0000_0000_0000,
    decreases i,
{
    reveal_with_fuel(pow256, 9);
}

/// The payload length the frame in `b` declares.
pub fn payload_length(b: &[u8]) -> (n: u64)
    requires
        b@.len() >= 2 + ext_len_size(b@[1]),
    ensures
        n == declared_len(b@),
{
    let b1 = b[1];
    let l = b1 & 0b0111_1111;
    assert(l == b1 % 128) by (bit_vector)
        requires
            l == b1 & 0x7f,
    ;
    if l == 127 {
        read_be(b, 2, 8)
    } else if l == 126 {
        read_be(b, 2, 2)
    } else {
        l as u64
    }
}

/// XORs `p` with the cycling four-byte masking key.
pub fn unmask_payload(p: &[u8], key: &[u8]) -> (out: Vec<u8>)
    requires
        key@.len() == 4,
    ensures
        out@ == unmask(p@, key@),
{
    let mut out: Vec<u8> = Vec::new();
    let mut i: usize = 0;
    while i < p.len()
        invariant
            i <= p@.len(),
            key@.len() == 4,
            out@ == unmask(p@.take(i as int), key@),
        decreases p@.len() - i,
    {
        out.push(p[i] ^ key[i % 4]);
        i = i + 1;
        assert(out@ == unmask(p@.take(i as int), key@));
    }
    assert(p@.take(i as int) == p@);
    out
}


impl Message {
    /// Reads one client frame from the front of `input`: the message and the
    /// number of bytes the frame takes.
    pub fn load(input: &[u8]) -> (r: Result<(Message, usize), LoadError>)
        ensures
            match r {
                Ok((m, n)) => load_result(input@) == Ok::<(MessageView, nat), LoadError>((m@, n as nat)),
                Err(e) => load_result(input@) == Err::<(MessageView, nat), LoadError>(e),
            },
            input@.len() >= 2 && Mask::of_code(input@[0] % 16) is Some && (input@.len() < 2
                + ext_len_size(input@[1]) + 4 || input@.len() < frame_extent(input@)) ==> r
                == Err::<(Message, usize), LoadError>(LoadError::Incomplete),
            match r {
                Ok((m, n)) => {
                    &&& n == frame_extent(input@)
                    &&& n <= input@.len()
                    &&& Mask::of_code(input@[0] % 16) == Some(m.mask)
                    &&& m@.payload is Binary ==> m@.payload->Binary_0 == unmasked_bytes(input@)
                    &&& m@.payload is Text ==> encode_utf8(m@.payload->Text_0) == unmasked_bytes(
                        input@,
                    )
                    &&& m@.payload is Empty ==> m.mask == Mask::CloseOp
                },
                Err(_) => true,
            },
    {
        proof {
            lemma_load_takes_whole_frame(input@);
        }
        if input.len() < 2 {
            return Err(LoadError::Incomplete);
        }
        let b0 = input[0];
        let op = b0 & 0b0000_1111;
        assert(op == b0 % 16) by (bit_vector)
            requires
                op == b0 & 0x0f,
        ;
        let mask = match Mask::from_code(op) {
            Some(m) => m,
            None => {
                return Err(LoadError::UnknownOpcode(op));
            },
        };
        let ext = extended_length_size(input[1]);
        if input.len() - 2 < ext + 4 {
            return Err(LoadError::Incomplete);
        }
        let n = payload_length(input);
        let key_at = 2 + ext;
        let h = key_at + 4;
        if ((input.len() - h) as u64) < n {
            return Err(LoadError::Incomplete);
        }
        let end = h + n as usize;
        let key = slice_range(input, key_at, h);
        let masked = slice_range(input, h, end);
        let p = unmask_payload(masked, key);
        match mask {
            Mask::TextOp => match string_from_utf8(p) {
                Some(s) => {
                    proof {
                        encode_utf8_decode_utf8(s@);
                    }
                    Ok((Message { payload: Payload::Text(s), mask }, end))
                },
                None => Err(LoadError::InvalidUtf8),
            },
            Mask::BinaryOp => Ok((Message { payload: Payload::Binary(p), mask }, end)),
            Mask::CloseOp => Ok((Message { payload: Payload::Empty, mask }, end)),
            Mask::ContinuationOp => Err(LoadError::Unsupported),
        }
    }
}

/// The bytes `b[from..to]`.
fn slice_range(b: &[u8], from: usize, to: usize) -> (s: &[u8])
    requires
        from <= to <= b@.len(),
    ensures
        s@ == b@.subrange(from as int, to as int),
{
    vstd::slice::slice_subrange(b, from, to)
}


/// The message kind and the payload agree: text frames carry text, binary
/// frames bytes, close frames nothing.
pub open spec fn kind_matches(m: MessageView) -> bool {
    match m.mask {
        Mask::TextOp => m.payload is Text,
        Mask::BinaryOp => m.payload is Binary,
        Mask::CloseOp => m.payload is Empty,
        Mask::ContinuationOp => false,
    }
}

/// The frame a client sends for a message: the server's framing of it with
/// the mask bit set, the masking key after the header, and the payload masked.
pub open spec fn client_frame(m: MessageView, key: Seq<u8>) -> Seq<u8> {
    let p = m.payload.wire_bytes();
    let lf = length_field(p.len());
    seq![(128 + m.mask.code_of()) as u8, (128 + lf[0]) as u8] + lf.drop_first() + key + unmask(
        p,
        key,
    )
}

/// Masking twice with the same key gives the payload back.
pub proof fn lemma_unmask_involution(p: Seq<u8>, key: Seq<u8>)
    ensures
        unmask(unmask(p, key), key) == p,
{
    assert forall|i: int| 0 <= i < p.len() implies #[trigger] unmask(unmask(p, key), key)[i]
        == p[i] by {
        let a = p[i];
        let k = key[i % 4];
        assert((a ^ k) ^ k == a) by (bit_vector);
    }
    assert(unmask(unmask(p, key), key) =~= p);
}

/// Big-endian bytes read back as the number they were written from.
pub proof fn lemma_be_roundtrip(n: nat, k: nat)
    requires
        n < pow256(k),
    ensures
        be_bytes(n, k).len() == k,
        be_value(be_bytes(n, k)) == n,
    decreases k,
{
    if k > 0 {
        let k1 = (k - 1) as nat;
        assert(pow256(k) == 256 * pow256(k1));
        assert(n / 256 < pow256(k1)) by (nonlinear_arith)
            requires
                n < 256 * pow256(k1),
        ;
        lemma_be_roundtrip(n / 256, k1);
        let b = be_bytes(n, k);
        assert(b.drop_last() == be_bytes(n / 256, k1));
    }
}

/// What a server frames, a client masks and sends back, and `load` reads it
/// as the same message, whatever follows the frame in the buffer.
pub proof fn lemma_load_reads_client_frame(m: MessageView, key: Seq<u8>, rest: Seq<u8>)
    requires
        kind_matches(m),
        key.len() == 4,
        m.payload.wire_bytes().len() <= u64::MAX,
    ensures
        load_result(client_frame(m, key) + rest) == Ok::<(MessageView, nat), LoadError>(
            (m, client_frame(m, key).len()),
        ),
{
    let p = m.payload.wire_bytes();
    let n = p.len();
    let lf = length_field(n);
    let f = client_frame(m, key);
    let b = f + rest;
    reveal_with_fuel(pow256, 9);
    let ext: nat = if n <= 125 {
        0
    } else if n <= 65535 {
        2
    } else {
        8
    };
    if n > 125 && n <= 65535 {
        lemma_be_roundtrip(n, 2);
    } else if n > 65535 {
        lemma_be_roundtrip(n, 8);
    }
    assert(lf.len() == 1 + ext);
    assert(b[0] == 128 + m.mask.code_of());
    assert(b[0] % 16 == m.mask.code_of());
    assert(b[1] == 128 + lf[0]);
    assert(b[1] % 128 == lf[0]);
    assert(ext_len_size(b[1]) == ext);
    assert(b.subrange(2, 2 + ext as int) =~= lf.drop_first());
    assert(declared_len(b) == n) by {
        if n > 125 && n <= 65535 {
            assert(b.subrange(2, 4) =~= be_bytes(n, 2));
        } else if n > 65535 {
            assert(b.subrange(2, 10) =~= be_bytes(n, 8));
        }
    }
    let h = 2 + ext + 4;
    assert(f.len() == h + n);
    assert(b.subrange((2 + ext) as int, h as int) =~= key);
    assert(b.subrange(h as int, (h + n) as int) =~= unmask(p, key));
    lemma_unmask_involution(p, key);
    match m.payload {
        PayloadView::Text(s) => {
            encode_utf8_valid_utf8(s);
            encode_utf8_decode_utf8(s);
        },
        _ => {},
    }
}


/// A server frame has FIN set and no mask bit; its opcode nibble names the
/// message kind, its header declares the payload's length in the shortest
/// form, and the payload follows the header unmasked.
pub proof fn lemma_frame_header(m: MessageView)
    requires
        m.payload.wire_bytes().len() <= u64::MAX,
    ensures
        frame_bytes(m)[0] == 128 + m.mask.code_of(),
        frame_bytes(m)[0] >= 128,
        frame_bytes(m)[0] % 16 == m.mask.code_of(),
        m.payload.wire_bytes().len() <= 125 ==> frame_bytes(m)[1] == m.payload.wire_bytes().len(),
        m.payload.wire_bytes().len() > 125 && m.payload.wire_bytes().len() <= 65535 ==> frame_bytes(
            m,
        )[1] == 126 && frame_bytes(m)[2] * 256 + frame_bytes(m)[3] == m.payload.wire_bytes().len(),
        m.payload.wire_bytes().len() > 65535 ==> frame_bytes(m)[1] == 127,
        frame_bytes(m)[1] < 128,
        frame_bytes(m).len() == 2 + ext_len_size(frame_bytes(m)[1]) + m.payload.wire_bytes().len(),
        declared_len(frame_bytes(m)) == m.payload.wire_bytes().len(),
        frame_bytes(m).skip(2 + ext_len_size(frame_bytes(m)[1]) as int) == m.payload.wire_bytes(),
        m.payload.wire_bytes().len() <= 125 ==> ext_len_size(frame_bytes(m)[1]) == 0,
        m.payload.wire_bytes().len() > 125 && m.payload.wire_bytes().len() <= 65535
            ==> ext_len_size(frame_bytes(m)[1]) == 2,
{
    let p = m.payload.wire_bytes();
    let n = p.len();
    let f = frame_bytes(m);
    reveal_with_fuel(pow256, 9);
    let ext: nat = if n <= 125 {
        0
    } else if n <= 65535 {
        2
    } else {
        8
    };
    if n > 125 && n <= 65535 {
        lemma_be_roundtrip(n, 2);
        assert(f.subrange(2, 4) =~= be_bytes(n, 2));
        let two = f.subrange(2, 4);
        assert(two.drop_last() =~= seq![f[2]]);
        assert(two.drop_last().drop_last() =~= Seq::<u8>::empty());
        assert(be_value(seq![f[2]]) == f[2] as nat);
        assert(be_value(two) == f[2] * 256 + f[3]);
    } else if n > 65535 {
        lemma_be_roundtrip(n, 8);
        assert(f.subrange(2, 10) =~= be_bytes(n, 8));
    }
    assert(ext_len_size(f[1]) == ext);
    assert(f.skip(2 + ext as int) =~= p);
}


/// A zero masking key leaves the payload as it is.
pub proof fn lemma_unmask_zero_key(p: Seq<u8>)
    ensures
        unmask(p, seq![0u8, 0u8, 0u8, 0u8]) == p,
{
    let key = seq![0u8, 0u8, 0u8, 0u8];
    assert forall|i: int| 0 <= i < p.len() implies #[trigger] unmask(p, key)[i] == p[i] by {
        let a = p[i];
        assert(key[i % 4] == 0);
        assert(a ^ 0u8 == a) by (bit_vector);
    }
    assert(unmask(p, key) =~= p);
}

/// A frame the server writes, with a zero masking key put after its header,
/// is read by `load` as the message it was written for, whatever follows it:
/// the zero key leaves the payload as it is, and `load` does not look at the
/// mask bit.
pub proof fn lemma_load_reads_server_frame_with_zero_key(m: MessageView, rest: Seq<u8>)
    requires
        kind_matches(m),
        m.payload.wire_bytes().len() <= u64::MAX,
    ensures
        ({
            let f = frame_bytes(m);
            let h = 2 + ext_len_size(f[1]);
            load_result(f.take(h as int) + seq![0u8, 0u8, 0u8, 0u8] + f.skip(h as int) + rest)
                == Ok::<(MessageView, nat), LoadError>((m, f.len() + 4))
        }),
{
    let f = frame_bytes(m);
    let p = m.payload.wire_bytes();
    let n = p.len();
    lemma_frame_header(m);
    let ext = ext_len_size(f[1]);
    let h = 2 + ext;
    let key = seq![0u8, 0u8, 0u8, 0u8];
    let b = f.take(h as int) + key + f.skip(h as int) + rest;
    assert(b[0] == f[0]);
    assert(b[1] == f[1]);
    assert(b.subrange(2, 2 + ext as int) =~= f.subrange(2, 2 + ext as int));
    assert(declared_len(b) == declared_len(f));
    assert(b.subrange(h as int, (h + 4) as int) =~= key);
    assert(b.subrange((h + 4) as int, (h + 4 + n) as int) =~= p);
    lemma_unmask_zero_key(p);
    match m.payload {
        PayloadView::Text(t) => {
            encode_utf8_valid_utf8(t);
            encode_utf8_decode_utf8(t);
        },
        _ => {},
    }
}


/// The bytes a frame of `b` would take: header, masking key, declared payload.
pub open spec fn frame_extent(b: Seq<u8>) -> int {
    2 + ext_len_size(b[1]) as int + 4 + declared_len(b) as int
}

/// The payload bytes of the frame in `b`, unmasked by hand: byte `i` of the
/// payload XOR byte `i % 4` of the key.
pub open spec fn unmasked_bytes(b: Seq<u8>) -> Seq<u8> {
    let key_at: int = 2 + ext_len_size(b[1]) as int;
    Seq::new(declared_len(b), |i: int| b[key_at + 4 + i] ^ b[key_at + i % 4])
}

/// A frame is read whole or not at all: a buffer that ends before the header,
/// the masking key and the declared payload do gives `Incomplete` (for a known
/// opcode), and a message read takes exactly those bytes, its payload being
/// the declared number of bytes, each unmasked with the key.
pub proof fn lemma_load_takes_whole_frame(b: Seq<u8>)
    ensures
        b.len() >= 2 && Mask::of_code(b[0] % 16) is Some && (b.len() < 2 + ext_len_size(b[1]) + 4
            || b.len() < frame_extent(b)) ==> load_result(b) == Err::<(MessageView, nat), LoadError>(
            LoadError::Incomplete,
        ),
        match load_result(b) {
            Ok((m, n)) => {
                &&& b.len() >= 2 + ext_len_size(b[1]) + 4
                &&& n == frame_extent(b)
                &&& n <= b.len()
                &&& Mask::of_code(b[0] % 16) == Some(m.mask)
                &&& m.payload is Binary ==> m.payload->Binary_0 == unmasked_bytes(b)
                &&& m.payload is Text ==> encode_utf8(m.payload->Text_0) == unmasked_bytes(b)
                &&& m.payload is Empty ==> m.mask == Mask::CloseOp
            },
            Err(_) => true,
        },
{
    if b.len() >= 2 + ext_len_size(b[1]) + 4 && b.len() >= frame_extent(b) && Mask::of_code(
        b[0] % 16,
    ) is Some {
        let key_at: int = 2 + ext_len_size(b[1]) as int;
        let h: int = key_at + 4;
        let n = declared_len(b) as int;
        let p = unmask(b.subrange(h, h + n), b.subrange(key_at, h));
        assert(p =~= unmasked_bytes(b));
        if valid_utf8(p) {
            decode_utf8_encode_utf8(p);
        }
    }
}

} // verus!
