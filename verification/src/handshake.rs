//! The HTTP/1.1 upgrade handshake (RFC 6455, section 4): reading the client's
//! request header and building the server's answer.
use vstd::prelude::*;
use vstd::string::*;
use vstd::utf8::*;
use crate::text::{
    crlf_at, lemma_split_lines_len,
    string_from_utf8,
    find_char, find_crlf, lemma_split_lines_at, lemma_split_on_at, split_lines,
    split_on, string_of, to_chars,
};

verus! {

/// The fields of a client's upgrade request that the server reads.
pub struct RequestHeader {
    pub upgrade: String,
    pub connection: String,
    pub host: String,
    pub origin: String,
    pub pragma: String,
    pub cache_control: String,
    pub sec_websocket_key: String,
    pub sec_websocket_version: String,
    pub sec_websocket_extensions: String,
    pub user_agent: String,
}

/// The content of a request header, field by field.
pub struct HeaderFields {
    pub upgrade: Seq<char>,
    pub connection: Seq<char>,
    pub host: Seq<char>,
    pub origin: Seq<char>,
    pub pragma: Seq<char>,
    pub cache_control: Seq<char>,
    pub sec_websocket_key: Seq<char>,
    pub sec_websocket_version: Seq<char>,
    pub sec_websocket_extensions: Seq<char>,
    pub user_agent: Seq<char>,
}

impl View for RequestHeader {
    type V = HeaderFields;

    open spec fn view(&self) -> HeaderFields {
        HeaderFields {
            upgrade: self.upgrade@,
            connection: self.connection@,
            host: self.host@,
            origin: self.origin@,
            pragma: self.pragma@,
            cache_control: self.cache_control@,
            sec_websocket_key: self.sec_websocket_key@,
            sec_websocket_version: self.sec_websocket_version@,
            sec_websocket_extensions: self.sec_websocket_extensions@,
            user_agent: self.user_agent@,
        }
    }
}

/// The header name, colon included, that the field numbered `i` is read from.
pub open spec fn header_key(i: int) -> Seq<char> {
    if i == 0 {
        "Upgrade:"@
    } else if i == 1 {
        "Connection:"@
    } else if i == 2 {
        "Host:"@
    } else if i == 3 {
        "Origin:"@
    } else if i == 4 {
        "Pragma:"@
    } else if i == 5 {
        "Cache-Control:"@
    } else if i == 6 {
        "Sec-WebSocket-Key:"@
    } else if i == 7 {
        "Sec-WebSocket-Version:"@
    } else if i == 8 {
        "Sec-WebSocket-Extensions:"@
    } else {
        "User-Agent:"@
    }
}

/// The number of the field that a line starting with the word `w` sets, if any.
pub open spec fn key_index(w: Seq<char>) -> Option<int> {
    if w == header_key(0) {
        Some(0)
    } else if w == header_key(1) {
        Some(1)
    } else if w == header_key(2) {
        Some(2)
    } else if w == header_key(3) {
        Some(3)
    } else if w == header_key(4) {
        Some(4)
    } else if w == header_key(5) {
        Some(5)
    } else if w == header_key(6) {
        Some(6)
    } else if w == header_key(7) {
        Some(7)
    } else if w == header_key(8) {
        Some(8)
    } else if w == header_key(9) {
        Some(9)
    } else {
        None
    }
}

impl HeaderFields {
    /// These fields with the one numbered `i` replaced by `v`.
    pub open spec fn with_field(self, i: int, v: Seq<char>) -> HeaderFields {
        if i == 0 {
            HeaderFields { upgrade: v, ..self }
        } else if i == 1 {
            HeaderFields { connection: v, ..self }
        } else if i == 2 {
            HeaderFields { host: v, ..self }
        } else if i == 3 {
            HeaderFields { origin: v, ..self }
        } else if i == 4 {
            HeaderFields { pragma: v, ..self }
        } else if i == 5 {
            HeaderFields { cache_control: v, ..self }
        } else if i == 6 {
            HeaderFields { sec_websocket_key: v, ..self }
        } else if i == 7 {
            HeaderFields { sec_websocket_version: v, ..self }
        } else if i == 8 {
            HeaderFields { sec_websocket_extensions: v, ..self }
        } else {
            HeaderFields { user_agent: v, ..self }
        }
    }

    /// All fields empty.
    pub open spec fn blank() -> HeaderFields {
        HeaderFields {
            upgrade: Seq::empty(),
            connection: Seq::empty(),
            host: Seq::empty(),
            origin: Seq::empty(),
            pragma: Seq::empty(),
            cache_control: Seq::empty(),
            sec_websocket_key: Seq::empty(),
            sec_websocket_version: Seq::empty(),
            sec_websocket_extensions: Seq::empty(),
            user_agent: Seq::empty(),
        }
    }
}

/// A line sets a field when its first space-separated word is a known header
/// name; the value is its second word.
pub open spec fn apply_line(h: HeaderFields, line: Seq<char>) -> HeaderFields {
    let w = split_on(line, ' ');
    match key_index(w[0]) {
        Some(i) => h.with_field(i, w[1]),
        None => h,
    }
}

/// The lines applied in order: of two lines naming the same field, the later wins.
pub open spec fn apply_lines(h: HeaderFields, lines: Seq<Seq<char>>) -> HeaderFields
    decreases lines.len(),
{
    if lines.len() == 0 {
        h
    } else {
        apply_lines(apply_line(h, lines[0]), lines.drop_first())
    }
}

/// A line that starts with a known header name also has a value word.
pub open spec fn line_complete(line: Seq<char>) -> bool {
    key_index(split_on(line, ' ')[0]) is Some ==> split_on(line, ' ').len() >= 2
}

pub open spec fn lines_complete(lines: Seq<Seq<char>>) -> bool {
    forall|i: int| 0 <= i < lines.len() ==> line_complete(#[trigger] lines[i])
}

/// The fields read from a whole request header.
pub open spec fn parse_request(s: Seq<char>) -> HeaderFields {
    apply_lines(HeaderFields::blank(), split_lines(s))
}

/// The number of the field that a line starting with `word` sets, if any.
fn field_number(word: &String) -> (i: Option<usize>)
    ensures
        match i {
            Some(k) => key_index(word@) == Some(k as int),
            None => key_index(word@) is None,
        },
{
    let keys = [
        "Upgrade:",
        "Connection:",
        "Host:",
        "Origin:",
        "Pragma:",
        "Cache-Control:",
        "Sec-WebSocket-Key:",
        "Sec-WebSocket-Version:",
        "Sec-WebSocket-Extensions:",
        "User-Agent:",
    ];
    let mut k: usize = 0;
    while k < 10
        invariant
            k <= 10,
            forall|j: int| 0 <= j < 10 ==> (#[trigger] keys@[j])@ == header_key(j),
            forall|j: int| 0 <= j < k ==> word@ != header_key(j),
        decreases 10 - k,
    {
        let key: String = keys[k].to_owned();
        if word.eq(&key) {
            return Some(k);
        }
        k = k + 1;
    }
    None
}

impl RequestHeader {
    /// The header with every field empty.
    pub fn blank() -> (h: RequestHeader)
        ensures
            h@ == HeaderFields::blank(),
    {
        RequestHeader {
            upgrade: String::new(),
            connection: String::new(),
            host: String::new(),
            origin: String::new(),
            pragma: String::new(),
            cache_control: String::new(),
            sec_websocket_key: String::new(),
            sec_websocket_version: String::new(),
            sec_websocket_extensions: String::new(),
            user_agent: String::new(),
        }
    }

    fn set_field(&mut self, i: usize, v: String)
        requires
            i < 10,
        ensures
            final(self)@ == old(self)@.with_field(i as int, v@),
    {
        if i == 0 {
            self.upgrade = v;
        } else if i == 1 {
            self.connection = v;
        } else if i == 2 {
            self.host = v;
        } else if i == 3 {
            self.origin = v;
        } else if i == 4 {
            self.pragma = v;
        } else if i == 5 {
            self.cache_control = v;
        } else if i == 6 {
            self.sec_websocket_key = v;
        } else if i == 7 {
            self.sec_websocket_version = v;
        } else if i == 8 {
            self.sec_websocket_extensions = v;
        } else {
            self.user_agent = v;
        }
    }

    /// Reads a request header, or gives `None` when a line names a known
    /// header but carries no value.
    pub fn parse(header: &str) -> (r: Option<RequestHeader>)
        ensures
            r is Some <==> lines_complete(split_lines(header@)),
            r matches Some(h) ==> h@ == parse_request(header@),
            r matches Some(h) ==> h@.sec_websocket_key.len() <= header@.len(),
    {
        let s = to_chars(header);
        let mut h = RequestHeader::blank();
        let mut pos: usize = 0;
        assert(s@.subrange(0, s@.len() as int) =~= s@);
        loop
            invariant
                pos <= s@.len(),
                s@ == header@,
                h@.sec_websocket_key.len() <= s@.len(),
                apply_lines(HeaderFields::blank(), split_lines(s@)) == apply_lines(
                    h@,
                    split_lines(s@.subrange(pos as int, s@.len() as int)),
                ),
                lines_complete(split_lines(s@)) == lines_complete(
                    split_lines(s@.subrange(pos as int, s@.len() as int)),
                ),
            decreases s@.len() - pos,
        {
            let p = find_crlf(&s, pos);
            let ghost line = s@.subrange(pos as int, p as int);
            let ghost rest = split_lines(s@.subrange(pos as int, s@.len() as int));
            proof {
                lemma_split_lines_at(s@, pos as int, p as int);
                assert(rest[0] == line);
            }
            let q = find_char(&s, ' ', pos, p);
            proof {
                lemma_split_on_at(s@, ' ', pos as int, q as int, p as int);
            }
            let word = string_of(&s, pos, q);
            let ghost old_h = h@;
            match field_number(&word) {
                Some(i) => {
                    if q == p {
                        assert(!line_complete(rest[0]));
                        return None;
                    }
                    let r = find_char(&s, ' ', q + 1, p);
                    proof {
                        lemma_split_on_at(s@, ' ', q + 1, r as int, p as int);
                    }
                    let value = string_of(&s, q + 1, r);
                    h.set_field(i, value);
                },
                None => {},
            }
            assert(h@ == apply_line(old_h, line));
            assert(line_complete(line));
            if p == s.len() {
                assert(rest.drop_first() =~= Seq::<Seq<char>>::empty());
                assert(apply_lines(h@, rest.drop_first()) == h@);
                assert(lines_complete(rest));
                return Some(h);
            }
            proof {
                let next = split_lines(s@.subrange(p + 2, s@.len() as int));
                assert(rest.drop_first() =~= next);
                assert(lines_complete(rest) == lines_complete(next)) by {
                    if lines_complete(next) {
                        assert forall|i: int| 0 <= i < rest.len() implies line_complete(
                            #[trigger] rest[i],
                        ) by {
                            if i > 0 {
                                assert(rest[i] == next[i - 1]);
                            }
                        }
                    }
                    if lines_complete(rest) {
                        assert forall|i: int| 0 <= i < next.len() implies line_complete(
                            #[trigger] next[i],
                        ) by {
                            assert(rest[i + 1] == next[i]);
                        }
                    }
                }
            }
            pos = p + 2;
        }
    }
}


impl RequestHeader {
    /// Reads a request header. Every line that starts with a known header
    /// name must carry a value after it.
    pub fn new(header: &str) -> (h: RequestHeader)
        requires
            lines_complete(split_lines(header@)),
        ensures
            h@ == parse_request(header@),
            h@.sec_websocket_key.len() <= header@.len(),
    {
        match RequestHeader::parse(header) {
            Some(h) => h,
            None => {
                proof {
                    assert(false);
                }
                RequestHeader::blank()
            },
        }
    }

    /// The request asks for a WebSocket connection: it carries a key.
    pub fn is_valid(&self) -> (b: bool)
        ensures
            b <==> self@.sec_websocket_key.len() > 0,
    {
        !self.sec_websocket_key.as_str().is_empty()
    }
}

/// The values of the "Sec-WebSocket-Key:" lines, in order, up to the first
/// such line without a value; and whether there was one.
pub open spec fn key_scan(lines: Seq<Seq<char>>) -> (Seq<Seq<char>>, bool)
    decreases lines.len(),
{
    if lines.len() == 0 {
        (Seq::empty(), false)
    } else {
        let w = split_on(lines[0], ' ');
        let rest = key_scan(lines.drop_first());
        if w[0] == "Sec-WebSocket-Key:"@ {
            if w.len() < 2 {
                (Seq::empty(), true)
            } else {
                (seq![w[1]] + rest.0, rest.1)
            }
        } else {
            rest
        }
    }
}

/// Scans a request for its "Sec-WebSocket-Key:" lines: the values in order,
/// and whether the scan stopped at such a line without a value.
pub fn websocket_keys(header: &str) -> (r: (Vec<String>, bool))
    ensures
        r.0@.map_values(|k: String| k@) == key_scan(split_lines(header@)).0,
        r.1 == key_scan(split_lines(header@)).1,
{
    let s = to_chars(header);
    let marker: String = "Sec-WebSocket-Key:".to_owned();
    let mut keys: Vec<String> = Vec::new();
    let mut pos: usize = 0;
    assert(s@.subrange(0, s@.len() as int) =~= s@);
    assert(keys@.map_values(|k: String| k@) =~= Seq::<Seq<char>>::empty());
    loop
        invariant
            pos <= s@.len(),
            s@ == header@,
            marker@ == "Sec-WebSocket-Key:"@,
            key_scan(split_lines(s@)).0 == keys@.map_values(|k: String| k@) + key_scan(
                split_lines(s@.subrange(pos as int, s@.len() as int)),
            ).0,
            key_scan(split_lines(s@)).1 == key_scan(
                split_lines(s@.subrange(pos as int, s@.len() as int)),
            ).1,
        decreases s@.len() - pos,
    {
        let p = find_crlf(&s, pos);
        let ghost line = s@.subrange(pos as int, p as int);
        let ghost rest = split_lines(s@.subrange(pos as int, s@.len() as int));
        proof {
            lemma_split_lines_at(s@, pos as int, p as int);
            assert(rest[0] == line);
        }
        let q = find_char(&s, ' ', pos, p);
        proof {
            lemma_split_on_at(s@, ' ', pos as int, q as int, p as int);
        }
        let word = string_of(&s, pos, q);
        let ghost old_keys = keys@.map_values(|k: String| k@);
        if word.eq(&marker) {
            if q == p {
                assert(key_scan(rest).0 =~= Seq::<Seq<char>>::empty());
                assert(old_keys + Seq::<Seq<char>>::empty() =~= old_keys);
                return (keys, true);
            }
            let r = find_char(&s, ' ', q + 1, p);
            proof {
                lemma_split_on_at(s@, ' ', q + 1, r as int, p as int);
            }
            let value = string_of(&s, q + 1, r);
            keys.push(value);
            proof {
                assert(keys@.map_values(|k: String| k@) =~= old_keys.push(
                    s@.subrange(q + 1, r as int),
                ));
                assert(key_scan(rest).0 == seq![s@.subrange(q + 1, r as int)] + key_scan(
                    rest.drop_first(),
                ).0);
                assert(old_keys + (seq![s@.subrange(q + 1, r as int)] + key_scan(
                    rest.drop_first(),
                ).0) =~= old_keys.push(s@.subrange(q + 1, r as int)) + key_scan(
                    rest.drop_first(),
                ).0);
            }
        }
        if p == s.len() {
            assert(rest.drop_first() =~= Seq::<Seq<char>>::empty());
            assert(key_scan(rest.drop_first()).0 =~= Seq::<Seq<char>>::empty());
            assert(keys@.map_values(|k: String| k@) + Seq::<Seq<char>>::empty() =~= keys@.map_values(
                |k: String| k@,
            ));
            return (keys, false);
        }
        proof {
            assert(rest.drop_first() =~= split_lines(s@.subrange(p + 2, s@.len() as int)));
        }
        pos = p + 2;
    }
}

/// The GUID that RFC 6455 appends to the client's key.
pub open spec fn websocket_guid() -> Seq<char> {
    "258EAFA5-E914-47DA-95CA-C5AB0DC85B11"@
}

/// The SHA-1 digest of `data`.
pub uninterp spec fn sha1_digest(data: Seq<u8>) -> Seq<u8>;

/// The RFC 4648 base64 encoding of `data`, padded, without line breaks.
pub uninterp spec fn base64_standard(data: Seq<u8>) -> Seq<char>;

/// SHA-1 of rust-crypto (`Sha1::new`, then `Digest::input_str`, then
/// `Digest::result`): the first twenty bytes of `out` become the digest of
/// the UTF-8 bytes of `value`, and the rest of `out` is left as it was. The
/// digest panics on inputs of 2^61 bytes or more, which `requires` leaves out.
#[verifier::external_body]
fn sha1_hash(value: &str, out: &mut [u8])
    requires
        old(out)@.len() >= 20,
        value@.len() < 0x0400_0000_0000_0000,
    ensures
        final(out)@.len() == old(out)@.len(),
        final(out)@.take(20) == sha1_digest(value.spec_bytes()),
        final(out)@.skip(20) == old(out)@.skip(20),
{
    let mut sha = crypto::sha1::Sha1::new();
    crypto::digest::Digest::input_str(&mut sha, value);
    crypto::digest::Digest::result(&mut sha, out);
}

/// A character of the standard base64 alphabet.
pub open spec fn is_base64_char(c: char) -> bool {
    ('A' <= c && c <= 'Z') || ('a' <= c && c <= 'z') || ('0' <= c && c <= '9') || c == '+'
        || c == '/'
}

/// How many '=' pad the base64 encoding of `n` bytes.
pub open spec fn base64_padding(n: nat) -> nat {
    if n % 3 == 0 {
        0
    } else {
        (3 - n % 3) as nat
    }
}

/// `ToBase64::to_base64` of rustc-serialize with its `STANDARD`
/// configuration: the result is named by `base64_standard`. As the source
/// shows, it is four characters for every started group of three bytes, all
/// from the standard alphabet but for the trailing '=' padding (two after a
/// lone last byte, one after a last pair). Inputs near the address limit,
/// where the length computation would overflow, are left out.
#[verifier::external_body]
fn to_base64_standard(data: &[u8]) -> (encoded: String)
    requires
        data@.len() <= 0x4000_0000,
    ensures
        encoded@ == base64_standard(data@),
        encoded@.len() == (data@.len() + 2) / 3 * 4,
        forall|i: int|
            0 <= i < encoded@.len() - base64_padding(data@.len()) ==> is_base64_char(
                #[trigger] encoded@[i],
            ),
        forall|i: int|
            encoded@.len() - base64_padding(data@.len()) <= i < encoded@.len() ==> #[trigger] encoded@[i]
                == '=',
{
    rustc_serialize::base64::ToBase64::to_base64(data, rustc_serialize::base64::STANDARD)
}

/// The value of the Sec-WebSocket-Accept header for the client's key `key`.
pub open spec fn accept_value(key: Seq<char>) -> Seq<char> {
    base64_standard(sha1_digest(encode_utf8(key + websocket_guid())))
}

/// Computes the Sec-WebSocket-Accept value for the client's key: the base64
/// encoding of the SHA-1 digest of the key followed by the RFC 6455 GUID.
pub fn accept_key(key: &str) -> (encoded: String)
    requires
        key@.len() < 0x0400_0000_0000_0000 - 36,
    ensures
        encoded@ == accept_value(key@),
        encoded@ == base64_standard(sha1_digest(key.spec_bytes() + guid_bytes())),
        encoded@.len() == 28,
        forall|i: int| 0 <= i < 27 ==> is_base64_char(#[trigger] encoded@[i]),
        encoded@[27] == '=',
{
    let mut pre_hash: String = key.to_owned();
    pre_hash.append("258EAFA5-E914-47DA-95CA-C5AB0DC85B11");
    proof {
        reveal_strlit("258EAFA5-E914-47DA-95CA-C5AB0DC85B11");
    }
    let mut out: Vec<u8> = vec![0u8; 20];
    ReturnHeader::sha1_hash(pre_hash.as_str(), out.as_mut_slice());
    proof {
        lemma_accept_value_hashes_key_bytes(key@);
    }
    to_base64_standard(out.as_slice())
}

/// The server's answer to an upgrade request.
pub struct ReturnHeader {
    pub heading: String,
    pub upgrade: String,
    pub connection: String,
    pub sec_websocket_accept: String,
}

pub struct ReturnHeaderView {
    pub heading: Seq<char>,
    pub upgrade: Seq<char>,
    pub connection: Seq<char>,
    pub sec_websocket_accept: Seq<char>,
}

impl View for ReturnHeader {
    type V = ReturnHeaderView;

    open spec fn view(&self) -> ReturnHeaderView {
        ReturnHeaderView {
            heading: self.heading@,
            upgrade: self.upgrade@,
            connection: self.connection@,
            sec_websocket_accept: self.sec_websocket_accept@,
        }
    }
}

/// The accepting answer that carries `accept` as the Sec-WebSocket-Accept value.
pub open spec fn accepting_header(accept: Seq<char>) -> ReturnHeaderView {
    ReturnHeaderView {
        heading: "HTTP/1.1 101 Switching Protocols\r\n"@,
        upgrade: "Upgrade: websocket\r\n"@,
        connection: "Connection: Upgrade\r\n"@,
        sec_websocket_accept: accept,
    }
}

/// The answer with every part empty.
pub open spec fn empty_header() -> ReturnHeaderView {
    ReturnHeaderView {
        heading: Seq::empty(),
        upgrade: Seq::empty(),
        connection: Seq::empty(),
        sec_websocket_accept: Seq::empty(),
    }
}

/// The text of an answer, as it is written to the client.
pub open spec fn header_text(h: ReturnHeaderView) -> Seq<char> {
    h.heading + h.upgrade + h.connection + "Sec-WebSocket-Accept: "@ + h.sec_websocket_accept
        + "\r\n\r\n"@
}

impl ReturnHeader {
    /// The answer that accepts a client whose key is `key`.
    pub fn new_accept(key: &str) -> (h: ReturnHeader)
        requires
            key@.len() < 0x0400_0000_0000_0000 - 36,
        ensures
            h@ == accepting_header(accept_value(key@)),
            h@.sec_websocket_accept.len() == 28,
            forall|i: int| 0 <= i < 27 ==> is_base64_char(#[trigger] h@.sec_websocket_accept[i]),
            h@.sec_websocket_accept[27] == '=',
    {
        let encoded = accept_key(key);
        ReturnHeader::with_accept(encoded)
    }

    /// The accepting answer that carries `encoded` as the accept value.
    pub fn with_accept(encoded: String) -> (h: ReturnHeader)
        ensures
            h@ == accepting_header(encoded@),
    {
        ReturnHeader {
            heading: "HTTP/1.1 101 Switching Protocols\r\n".to_owned(),
            upgrade: "Upgrade: websocket\r\n".to_owned(),
            connection: "Connection: Upgrade\r\n".to_owned(),
            sec_websocket_accept: encoded,
        }
    }

    /// The answer that rejects the connection: every part empty.
    pub fn new_reject() -> (h: ReturnHeader)
        ensures
            h@ == empty_header(),
    {
        ReturnHeader::new()
    }

    /// A blank answer.
    fn new() -> (h: ReturnHeader)
        ensures
            h@ == empty_header(),
    {
        ReturnHeader {
            heading: String::new(),
            upgrade: String::new(),
            connection: String::new(),
            sec_websocket_accept: String::new(),
        }
    }

    /// The text of this answer.
    pub fn to_string(&self) -> (s: String)
        ensures
            s@ == header_text(self@),
    {
        let mut stringified = String::new();
        stringified.append(self.heading.as_str());
        stringified.append(self.upgrade.as_str());
        stringified.append(self.connection.as_str());
        stringified.append("Sec-WebSocket-Accept: ");
        stringified.append(self.sec_websocket_accept.as_str());
        stringified.append("\r\n\r\n");
        assert(stringified@ =~= header_text(self@));
        stringified
    }

    /// Places the SHA-1 digest of `value` in the first twenty bytes of `out`.
    fn sha1_hash(value: &str, out: &mut [u8])
        requires
            old(out)@.len() == 20,
            value@.len() < 0x0400_0000_0000_0000,
        ensures
            final(out)@ == sha1_digest(value.spec_bytes()),
            final(out)@.len() == 20,
    {
        sha1_hash(value, out);
        assert(final(out)@ == final(out)@.take(20));
    }
}


/// The echo server's accepting answer, built around an accept value.
pub open spec fn accept_reply_text(encoded: Seq<char>) -> Seq<char> {
    "HTTP/1.1 101 Switching Protocols\r\nUpgrade: websocket\r\nConnection: Upgrade\r\nSec-WebSocket-Accept: "@
        + encoded + "\r\n\r\n"@
}

/// The text of the accepting answer that carries `encoded`.
pub fn accept_reply(encoded: &str) -> (s: String)
    ensures
        s@ == accept_reply_text(encoded@),
{
    let mut accept_header: String =
        "HTTP/1.1 101 Switching Protocols\r\nUpgrade: websocket\r\nConnection: Upgrade\r\nSec-WebSocket-Accept: ".to_owned();
    accept_header.append(encoded);
    accept_header.append("\r\n\r\n");
    accept_header
}

/// What the server does with the bytes that a new connection sends first.
pub enum Handshake {
    /// The bytes are not UTF-8: the connection is left alone.
    NotText,
    /// A line names a known header without a value: the connection is left alone.
    Malformed,
    /// The request carries no key: nothing is answered.
    Rejected,
    /// The answer to write back before the connection joins the event loop.
    Accept(String),
}

/// Every character takes at least one byte.
pub proof fn lemma_encode_utf8_len(chars: Seq<char>)
    ensures
        chars.len() <= encode_utf8(chars).len(),
    decreases chars.len(),
{
    if chars.len() > 0 {
        lemma_encode_utf8_len(chars.drop_first());
    }
}

/// Answers the request bytes of a new connection.
pub fn handshake_reply(request: &[u8]) -> (r: Handshake)
    requires
        request@.len() < 0x0400_0000_0000_0000 - 36,
    ensures
        match r {
            Handshake::NotText => !valid_utf8(request@),
            Handshake::Malformed => valid_utf8(request@) && !lines_complete(
                split_lines(decode_utf8(request@)),
            ),
            Handshake::Rejected => valid_utf8(request@) && lines_complete(
                split_lines(decode_utf8(request@)),
            ) && parse_request(decode_utf8(request@)).sec_websocket_key.len() == 0,
            Handshake::Accept(text) => valid_utf8(request@) && lines_complete(
                split_lines(decode_utf8(request@)),
            ) && parse_request(decode_utf8(request@)).sec_websocket_key.len() > 0 && text@
                == header_text(
                accepting_header(
                    accept_value(parse_request(decode_utf8(request@)).sec_websocket_key),
                ),
            ),
        },
{
    let bytes = vstd::slice::slice_to_vec(request);
    let text = match string_from_utf8(bytes) {
        Some(t) => t,
        None => {
            return Handshake::NotText;
        },
    };
    proof {
        encode_utf8_decode_utf8(text@);
        lemma_encode_utf8_len(text@);
    }
    let request_header = match RequestHeader::parse(text.as_str()) {
        Some(h) => h,
        None => {
            return Handshake::Malformed;
        },
    };
    if !request_header.is_valid() {
        return Handshake::Rejected;
    }
    let return_header = ReturnHeader::new_accept(request_header.sec_websocket_key.as_str());
    Handshake::Accept(return_header.to_string())
}


/// Splitting at "\r\n" treats the line break between two texts as a line break.
pub proof fn lemma_split_lines_concat(a: Seq<char>, b: Seq<char>)
    ensures
        split_lines(a + seq!['\r', '\n'] + b) == split_lines(a) + split_lines(b),
    decreases a.len(),
{
    let s = a + seq!['\r', '\n'] + b;
    if a.len() == 0 {
        assert(crlf_at(s, 0));
        assert(s.skip(2) =~= b);
    } else if crlf_at(a, 0) {
        assert(crlf_at(s, 0));
        assert(s.skip(2) =~= a.skip(2) + seq!['\r', '\n'] + b);
        lemma_split_lines_concat(a.skip(2), b);
    } else {
        assert(!crlf_at(s, 0));
        assert(s.drop_first() =~= a.drop_first() + seq!['\r', '\n'] + b);
        lemma_split_lines_concat(a.drop_first(), b);
        lemma_split_lines_len(a.drop_first());
        let r = split_lines(a.drop_first());
        assert((r + split_lines(b)).update(0, seq![s[0]] + (r + split_lines(b))[0]) =~= r.update(
            0,
            seq![a[0]] + r[0],
        ) + split_lines(b));
    }
}

/// Applying two runs of lines one after the other.
pub proof fn lemma_apply_lines_concat(h: HeaderFields, xs: Seq<Seq<char>>, ys: Seq<Seq<char>>)
    ensures
        apply_lines(h, xs + ys) == apply_lines(apply_lines(h, xs), ys),
    decreases xs.len(),
{
    if xs.len() == 0 {
        assert(xs + ys =~= ys);
    } else {
        assert((xs + ys).drop_first() =~= xs.drop_first() + ys);
        lemma_apply_lines_concat(apply_line(h, xs[0]), xs.drop_first(), ys);
    }
}

/// A request that ends with the line "Sec-WebSocket-Key: k" is read with the
/// key k, whatever lines come before it: of two key lines, the later wins.
pub proof fn lemma_last_key_line_wins(head: Seq<char>, key: Seq<char>)
    requires
        forall|i: int| 0 <= i < key.len() ==> key[i] != ' ',
        forall|j: int| !crlf_at(key, j),
    ensures
        parse_request(head + seq!['\r', '\n'] + ("Sec-WebSocket-Key: "@ + key)).sec_websocket_key
            == key,
{
    reveal_strlit("Sec-WebSocket-Key: ");
    reveal_strlit("Sec-WebSocket-Key:");
    reveal_strlit("Upgrade:");
    reveal_strlit("Connection:");
    reveal_strlit("Host:");
    reveal_strlit("Origin:");
    reveal_strlit("Pragma:");
    reveal_strlit("Cache-Control:");
    let prefix = "Sec-WebSocket-Key: "@;
    let line = prefix + key;
    assert(prefix.len() == 19);
    assert forall|j: int| 0 <= j < line.len() implies !crlf_at(line, j) by {
        if j >= 19 {
            assert(!crlf_at(key, j - 19));
        }
    }
    lemma_split_lines_at(line, 0, line.len() as int);
    assert(line.subrange(0, line.len() as int) =~= line);
    assert forall|j: int| 0 <= j < 18 implies line[j] != ' ' by {}
    assert(line[18] == ' ');
    lemma_split_on_at(line, ' ', 0, 18, line.len() as int);
    assert(line.subrange(0, line.len() as int) =~= line);
    lemma_split_on_at(line, ' ', 19, line.len() as int, line.len() as int);
    assert(line.subrange(19, line.len() as int) =~= key);
    assert(line.subrange(0, 18) =~= "Sec-WebSocket-Key:"@);
    let w = split_on(line, ' ');
    assert(w[0] == header_key(6));
    assert(w[1] == key);
    assert(key_index(w[0]) == Some(6int));
    lemma_split_lines_concat(head, line);
    lemma_apply_lines_concat(HeaderFields::blank(), split_lines(head), split_lines(line));
    assert(split_lines(line) == seq![line]);
    assert(seq![line].drop_first() =~= Seq::<Seq<char>>::empty());
    let h1 = apply_lines(HeaderFields::blank(), split_lines(head));
    assert(apply_lines(h1, seq![line]) == apply_lines(apply_line(h1, line), seq![line].drop_first()));
    assert(apply_line(h1, line) == h1.with_field(6, key));
    assert(parse_request(head + seq!['\r', '\n'] + line) == h1.with_field(6, key));
}


/// The value of the last "Sec-WebSocket-Key:" line among `lines`, or `k`
/// when there is none.
pub open spec fn last_key_value(k: Seq<char>, lines: Seq<Seq<char>>) -> Seq<char>
    decreases lines.len(),
{
    if lines.len() == 0 {
        k
    } else {
        let w = split_on(lines[0], ' ');
        last_key_value(
            if w[0] == "Sec-WebSocket-Key:"@ {
                w[1]
            } else {
                k
            },
            lines.drop_first(),
        )
    }
}

/// Only a "Sec-WebSocket-Key:" line sets the key.
proof fn lemma_apply_line_key(h: HeaderFields, line: Seq<char>)
    ensures
        apply_line(h, line).sec_websocket_key == (if split_on(line, ' ')[0]
            == "Sec-WebSocket-Key:"@ {
            split_on(line, ' ')[1]
        } else {
            h.sec_websocket_key
        }),
{
    reveal_strlit("Sec-WebSocket-Key:");
    reveal_strlit("Upgrade:");
    reveal_strlit("Connection:");
    reveal_strlit("Host:");
    reveal_strlit("Origin:");
    reveal_strlit("Pragma:");
    reveal_strlit("Cache-Control:");
    let w0 = split_on(line, ' ')[0];
    if w0 == header_key(6) {
        assert(w0.len() == 18);
        assert(header_key(0).len() == 8);
        assert(header_key(1).len() == 11);
        assert(header_key(2).len() == 5);
        assert(header_key(3).len() == 7);
        assert(header_key(4).len() == 7);
        assert(header_key(5).len() == 14);
        assert(key_index(w0) == Some(6int));
    } else {
        assert(key_index(w0) != Some(6int));
    }
}

proof fn lemma_apply_lines_key(h: HeaderFields, lines: Seq<Seq<char>>)
    ensures
        apply_lines(h, lines).sec_websocket_key == last_key_value(h.sec_websocket_key, lines),
    decreases lines.len(),
{
    if lines.len() > 0 {
        lemma_apply_line_key(h, lines[0]);
        lemma_apply_lines_key(apply_line(h, lines[0]), lines.drop_first());
    }
}

/// The key a request is read with is the value of its last
/// "Sec-WebSocket-Key:" line, or empty when it has none; so the request is
/// valid exactly when it has such a line and the last one carries a value.
pub proof fn lemma_key_is_last_key_line(s: Seq<char>)
    ensures
        parse_request(s).sec_websocket_key == last_key_value(Seq::empty(), split_lines(s)),
{
    lemma_apply_lines_key(HeaderFields::blank(), split_lines(s));
}


/// A line that names no known header changes nothing: the request reads the
/// same with it appended as without it.
pub proof fn lemma_unknown_line_changes_nothing(head: Seq<char>, line: Seq<char>)
    requires
        forall|j: int| !crlf_at(line, j),
        key_index(split_on(line, ' ')[0]) is None,
    ensures
        parse_request(head + seq!['\r', '\n'] + line) == parse_request(head),
{
    lemma_split_lines_at(line, 0, line.len() as int);
    assert(line.subrange(0, line.len() as int) =~= line);
    lemma_split_lines_concat(head, line);
    lemma_apply_lines_concat(HeaderFields::blank(), split_lines(head), split_lines(line));
    let h1 = apply_lines(HeaderFields::blank(), split_lines(head));
    assert(seq![line].drop_first() =~= Seq::<Seq<char>>::empty());
    assert(apply_lines(h1, seq![line]) == apply_lines(apply_line(h1, line), seq![line].drop_first()));
}

/// Accepting answers differ only in their accept value: the status line and
/// the Upgrade and Connection lines are the same whatever the client's key.
pub proof fn lemma_accept_lines_do_not_depend_on_key(k1: Seq<char>, k2: Seq<char>)
    ensures
        accepting_header(accept_value(k1)).heading == accepting_header(accept_value(k2)).heading,
        accepting_header(accept_value(k1)).upgrade == accepting_header(accept_value(k2)).upgrade,
        accepting_header(accept_value(k1)).connection == accepting_header(
            accept_value(k2),
        ).connection,
{
}


/// The bytes of the RFC 6455 GUID "258EAFA5-E914-47DA-95CA-C5AB0DC85B11".
pub open spec fn guid_bytes() -> Seq<u8> {
    seq![
        0x32u8, 0x35u8, 0x38u8, 0x45u8, 0x41u8, 0x46u8, 0x41u8, 0x35u8, 0x2du8, 0x45u8, 0x39u8,
        0x31u8, 0x34u8, 0x2du8, 0x34u8, 0x37u8, 0x44u8, 0x41u8, 0x2du8, 0x39u8, 0x35u8, 0x43u8,
        0x41u8, 0x2du8, 0x43u8, 0x35u8, 0x41u8, 0x42u8, 0x30u8, 0x44u8, 0x43u8, 0x38u8, 0x35u8,
        0x42u8, 0x31u8, 0x31u8,
    ]
}

/// The UTF-8 bytes of two texts put together are the bytes of each, in order.
pub proof fn lemma_encode_utf8_concat(a: Seq<char>, b: Seq<char>)
    ensures
        encode_utf8(a + b) == encode_utf8(a) + encode_utf8(b),
    decreases a.len(),
{
    if a.len() == 0 {
        assert(a + b =~= b);
        assert(encode_utf8(a) =~= Seq::<u8>::empty());
        assert(Seq::<u8>::empty() + encode_utf8(b) =~= encode_utf8(b));
    } else {
        assert((a + b)[0] == a[0]);
        assert((a + b).drop_first() =~= a.drop_first() + b);
        lemma_encode_utf8_concat(a.drop_first(), b);
        assert(encode_scalar(a[0] as u32) + (encode_utf8(a.drop_first()) + encode_utf8(b))
            =~= (encode_scalar(a[0] as u32) + encode_utf8(a.drop_first())) + encode_utf8(b));
    }
}

/// The accept value is the base64 encoding of the SHA-1 digest of exactly the
/// bytes the client sent as its key, unchanged, followed by the 36 bytes of
/// the GUID.
pub proof fn lemma_accept_value_hashes_key_bytes(k: Seq<char>)
    ensures
        accept_value(k) == base64_standard(sha1_digest(encode_utf8(k) + guid_bytes())),
{
    reveal_strlit("258EAFA5-E914-47DA-95CA-C5AB0DC85B11");
    let g = websocket_guid();
    lemma_encode_utf8_concat(k, g);
    assert(is_ascii_chars(g));
    is_ascii_chars_encode_utf8(g);
    assert(encode_utf8(g) =~= guid_bytes());
}


/// A request made of the single line `k v` is read as that line applied to
/// the blank header; `k` is its first word and `v` its second.
proof fn lemma_single_line(k: Seq<char>, v: Seq<char>)
    requires
        forall|i: int| 0 <= i < k.len() ==> k[i] != ' ' && k[i] != '\r',
        forall|i: int| 0 <= i < v.len() ==> v[i] != ' ',
        forall|j: int| !crlf_at(v, j),
    ensures
        parse_request(k + seq![' '] + v) == apply_line(HeaderFields::blank(), k + seq![' '] + v),
        split_on(k + seq![' '] + v, ' ')[0] == k,
        split_on(k + seq![' '] + v, ' ')[1] == v,
{
    let line = k + seq![' '] + v;
    let n = line.len() as int;
    let kl = k.len() as int;
    assert forall|j: int| 0 <= j < n implies !crlf_at(line, j) by {
        if j < kl {
            assert(line[j] == k[j]);
        } else if j == kl {
            assert(line[j] == ' ');
        } else {
            assert(!crlf_at(v, j - kl - 1));
            if crlf_at(line, j) {
                assert(line[j] == v[j - kl - 1]);
                assert(line[j + 1] == v[j - kl]);
            }
        }
    }
    lemma_split_lines_at(line, 0, n);
    assert(line.subrange(0, n) =~= line);
    assert(seq![line].drop_first() =~= Seq::<Seq<char>>::empty());
    assert(apply_lines(HeaderFields::blank(), seq![line]) == apply_lines(
        apply_line(HeaderFields::blank(), line),
        seq![line].drop_first(),
    ));
    assert forall|j: int| 0 <= j < kl implies line[j] != ' ' by {
        assert(line[j] == k[j]);
    }
    lemma_split_on_at(line, ' ', 0, kl, n);
    assert(line.subrange(0, kl) =~= k);
    assert forall|j: int| kl + 1 <= j < n implies line[j] != ' ' by {
        assert(line[j] == v[j - kl - 1]);
    }
    lemma_split_on_at(line, ' ', kl + 1, n, n);
    assert(line.subrange(kl + 1, n) =~= v);
}

/// Each header name sets its own field and no other: a request of the single
/// line "Name: v" is read with v in the field of that name and every other
/// field empty.
pub proof fn lemma_each_name_sets_its_field(v: Seq<char>)
    requires
        forall|i: int| 0 <= i < v.len() ==> v[i] != ' ',
        forall|j: int| !crlf_at(v, j),
    ensures
        parse_request("Upgrade:"@ + seq![' '] + v) == (HeaderFields { upgrade: v, ..HeaderFields::blank() }),
        parse_request("Connection:"@ + seq![' '] + v) == (HeaderFields { connection: v, ..HeaderFields::blank() }),
        parse_request("Host:"@ + seq![' '] + v) == (HeaderFields { host: v, ..HeaderFields::blank() }),
        parse_request("Origin:"@ + seq![' '] + v) == (HeaderFields { origin: v, ..HeaderFields::blank() }),
        parse_request("Pragma:"@ + seq![' '] + v) == (HeaderFields { pragma: v, ..HeaderFields::blank() }),
        parse_request("Cache-Control:"@ + seq![' '] + v) == (HeaderFields { cache_control: v, ..HeaderFields::blank() }),
        parse_request("Sec-WebSocket-Key:"@ + seq![' '] + v) == (HeaderFields { sec_websocket_key: v, ..HeaderFields::blank() }),
        parse_request("Sec-WebSocket-Version:"@ + seq![' '] + v) == (HeaderFields { sec_websocket_version: v, ..HeaderFields::blank() }),
        parse_request("Sec-WebSocket-Extensions:"@ + seq![' '] + v) == (HeaderFields { sec_websocket_extensions: v, ..HeaderFields::blank() }),
        parse_request("User-Agent:"@ + seq![' '] + v) == (HeaderFields { user_agent: v, ..HeaderFields::blank() }),
{
    reveal_strlit("Upgrade:");
    reveal_strlit("Connection:");
    reveal_strlit("Host:");
    reveal_strlit("Origin:");
    reveal_strlit("Pragma:");
    reveal_strlit("Cache-Control:");
    reveal_strlit("Sec-WebSocket-Key:");
    reveal_strlit("Sec-WebSocket-Version:");
    reveal_strlit("Sec-WebSocket-Extensions:");
    reveal_strlit("User-Agent:");
    lemma_single_line("Upgrade:"@, v);
    lemma_single_line("Connection:"@, v);
    lemma_single_line("Host:"@, v);
    lemma_single_line("Origin:"@, v);
    lemma_single_line("Pragma:"@, v);
    lemma_single_line("Cache-Control:"@, v);
    lemma_single_line("Sec-WebSocket-Key:"@, v);
    lemma_single_line("Sec-WebSocket-Version:"@, v);
    lemma_single_line("Sec-WebSocket-Extensions:"@, v);
    lemma_single_line("User-Agent:"@, v);
}

} // verus!
