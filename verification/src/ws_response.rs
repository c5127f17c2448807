//! The frame encoder and the answer to the opening handshake.

use bytes::BytesMut;
use vstd::prelude::*;
use vstd::string::{StringExecFns, StringSliceAdditionalSpecFns};
use vstd::utf8::{encode_utf8, is_ascii_chars, is_ascii_chars_encode_utf8};

use crate::big_endian::{be_bytes, lemma_be_bytes_len};
use crate::bytes_buf::{append, contents, reserve, u16_bytes, u32_bytes, u64_bytes};
use crate::ws_frame::{opcode_bits, opcode_to_u8, Frame, FrameView, Header};

verus! {

/// What the server sends: a frame.
pub type Response = Frame;

/// The seven-bit length marker of a payload length: the length itself below
/// 126, 126 where two bytes spell it, 127 where eight do.
pub open spec fn length_marker(payload_len: nat) -> u8 {
    if payload_len < 126 {
        payload_len as u8
    } else if payload_len < 65536 {
        126
    } else {
        127
    }
}

/// The extended length that follows the two fixed bytes.
pub open spec fn extended_len_bytes(payload_len: nat) -> Seq<u8> {
    if payload_len < 126 {
        Seq::empty()
    } else if payload_len < 65536 {
        be_bytes(payload_len, 2)
    } else {
        be_bytes(payload_len, 8)
    }
}

/// The two fixed bytes of a header: the final bit over the opcode, the mask
/// bit over the length marker.
pub open spec fn fixed_bytes(header: Header) -> Seq<u8> {
    seq![
        (if header.is_final { 0x80u8 } else { 0u8 }) | opcode_bits(header.opcode),
        (if header.is_masked { 0x80u8 } else { 0u8 }) | length_marker(header.payload_len as nat),
    ]
}

/// The wire form of a header: the fixed bytes, the extended length, and the
/// masking key where the frame is masked.
pub open spec fn header_bytes(header: Header) -> Seq<u8> {
    fixed_bytes(header) + extended_len_bytes(header.payload_len as nat) + (if header.is_masked {
        be_bytes(header.masking_key as nat, 4)
    } else {
        Seq::empty()
    })
}

/// The wire form of a frame: its header, then its payload as it is.
pub open spec fn frame_bytes(frame: FrameView) -> Seq<u8> {
    header_bytes(frame.header) + frame.payload
}

/// The number of bytes that a frame with this header takes on the wire.
pub open spec fn response_len_spec(header: Header) -> nat {
    (2 + header.payload_len + (if header.payload_len < 126 {
        0int
    } else if header.payload_len < 65536 {
        2int
    } else {
        8int
    }) + (if header.is_masked {
        4int
    } else {
        0int
    })) as nat
}

/// The wire form of a header is as long as `response_len_spec` says, less the
/// payload.
pub proof fn lemma_header_bytes_len(header: Header)
    ensures
        header_bytes(header).len() + header.payload_len == response_len_spec(header),
        2 <= header_bytes(header).len() <= 14,
{
    lemma_be_bytes_len(header.payload_len as nat, 2);
    lemma_be_bytes_len(header.payload_len as nat, 8);
    lemma_be_bytes_len(header.masking_key as nat, 4);
}

/// The number of bytes that the frame takes on the wire.
pub fn response_len(msg: &Response) -> (len: usize)
    requires
        msg.header.payload_len + 14 <= usize::MAX,
    ensures
        len == response_len_spec(msg.header),
{
    let mut len = 2 + msg.header.payload_len;
    if msg.header.payload_len >= 126 && msg.header.payload_len < 65536 {
        len += 2;
    } else if msg.header.payload_len >= 65536 {
        len += 8;
    }
    if msg.header.is_masked {
        len += 4;
    }
    len
}

/// The wire form of a header, built in a vector of its own.
fn encode_header(header: &Header) -> (out: Vec<u8>)
    ensures
        out@ == header_bytes(*header),
{
    let mut b0: u8 = 0;
    let mut b1: u8 = 0;
    if header.is_final {
        b0 |= 0x80;
    }
    let op_u8 = opcode_to_u8(header.opcode);
    b0 |= op_u8;
    if header.is_masked {
        b1 |= 0x80;
    }
    let mut out: Vec<u8> = Vec::new();
    let mut extended: Vec<u8> = Vec::new();
    if header.payload_len < 126 {
        b1 |= header.payload_len as u8;
    } else if header.payload_len < 65536 {
        b1 |= 0x7e;
        extended = u16_bytes(header.payload_len as u16);
    } else {
        b1 |= 0x7f;
        extended = u64_bytes(header.payload_len as u64);
    }
    proof {
        let f = if header.is_final { 0x80u8 } else { 0u8 };
        let m = if header.is_masked { 0x80u8 } else { 0u8 };
        let l = length_marker(header.payload_len as nat);
        assert(0u8 | f == f) by (bit_vector);
        assert(0u8 | m == m) by (bit_vector);
        assert(0u8 | op_u8 == op_u8) by (bit_vector);
        assert(0u8 | l == l) by (bit_vector);
        assert(b0 == f | opcode_bits(header.opcode));
        assert(b1 == m | l);
    }
    out.push(b0);
    out.push(b1);
    out.append(&mut extended);
    if header.is_masked {
        let mut key = u32_bytes(header.masking_key);
        out.append(&mut key);
    }
    assert(out@ =~= header_bytes(*header));
    out
}

/// Adds the wire form of the frame at the back of the buffer. The buffer
/// grows once, by the frame's whole length, and what it held stays in front.
/// The payload is written as it is: a masked frame holds its payload masked
/// already.
pub fn encode(msg: Response, buf: &mut BytesMut)
    requires
        contents(*old(buf)).len() + msg.header.payload_len + 14 <= isize::MAX,
        contents(*old(buf)).len() + msg.payload@.len() + 14 <= isize::MAX,
    ensures
        contents(*final(buf)) == contents(*old(buf)) + frame_bytes(msg@),
{
    reserve(buf, response_len(&msg));
    let head = encode_header(&msg.header);
    proof {
        lemma_header_bytes_len(msg.header);
    }
    append(buf, head.as_slice());
    append(buf, msg.payload.as_slice());
    assert(contents(*buf) =~= contents(*old(buf)) + frame_bytes(msg@));
}

/// The SHA-1 digest of a sequence of bytes.
pub uninterp spec fn sha1_digest(input: Seq<u8>) -> Seq<u8>;

/// The standard base64 text, with padding, of a sequence of bytes.
pub uninterp spec fn base64_text(input: Seq<u8>) -> Seq<char>;

/// The identifier that the protocol appends to a key before hashing it.
pub open spec fn guid() -> Seq<char> {
    "258EAFA5-E914-47DA-95CA-C5AB0DC85B11"@
}

/// The token that answers a handshake key: the key with the protocol's
/// identifier behind it, hashed with SHA-1, the digest written in base64.
pub open spec fn accept_token(key: Seq<char>) -> Seq<char> {
    base64_text(sha1_digest(encode_utf8(key + guid())))
}

/// The status line and the fixed headers of the answer, up to the token.
pub open spec fn accept_head() -> Seq<char> {
    "HTTP/1.1 101 Switching Protocols\r\nUpgrade: websocket\r\nConnection: Upgrade\r\nSec-WebSocket-Accept: "@
}

/// The end of the token's line and the empty line that ends the answer.
pub open spec fn accept_tail() -> Seq<char> {
    "\r\n\r\n"@
}

/// The answer that carries the given token: status 101, the headers
/// `Upgrade`, `Connection` and `Sec-WebSocket-Accept`, and no body.
pub open spec fn accept_text(token: Seq<char>) -> Seq<char> {
    accept_head() + token + accept_tail()
}

/// The answer to a handshake with the given key.
pub open spec fn accept_response(key: Seq<char>) -> Seq<char> {
    accept_text(accept_token(key))
}

/// The number of bytes that the answer to a handshake takes.
pub const ACCEPT_LEN: usize = 129;

/// The longest text that can be hashed, in bytes.
pub const MAX_HASH_INPUT: u64 = 0x1fff_ffff_ffff_ffff;

/// `ring::digest::digest` with SHA-1: the digest of the text's bytes, which
/// is twenty bytes long. Texts whose length in bits does not fit 64 bits are
/// left out: the outside function does not return on them.
#[verifier::external_body]
fn hash_sha1(input: &str) -> (digest: Vec<u8>)
    requires
        input.spec_bytes().len() <= MAX_HASH_INPUT,
    ensures
        digest@ == sha1_digest(input.spec_bytes()),
        digest@.len() == 20,
{
    ring::digest::digest(&ring::digest::SHA1_FOR_LEGACY_USE_ONLY, input.as_bytes()).as_ref().to_vec()
}

/// `base64::encode`: the standard base64 text of the bytes, four ASCII
/// characters for every three bytes or part of three.
#[verifier::external_body]
fn base64_encode(input: &[u8]) -> (text: String)
    requires
        input@.len() <= 0x3000_0000,
    ensures
        text@ == base64_text(input@),
        text@.len() == 4 * ((input@.len() + 2) / 3),
        is_ascii_chars(text@),
{
    base64::encode(input)
}

/// The UTF-8 form of two texts joined is the two UTF-8 forms joined.
pub proof fn lemma_encode_utf8_concat(a: Seq<char>, b: Seq<char>)
    ensures
        encode_utf8(a + b) == encode_utf8(a) + encode_utf8(b),
    decreases a.len(),
{
    if a.len() == 0 {
        assert(a + b =~= b);
        assert(encode_utf8(a) + encode_utf8(b) =~= encode_utf8(b));
    } else {
        lemma_encode_utf8_concat(a.drop_first(), b);
        assert((a + b).drop_first() =~= a.drop_first() + b);
        assert(encode_utf8(a + b) =~= encode_utf8(a) + encode_utf8(b));
    }
}

/// Whether a key is short enough to be hashed with the identifier behind it.
pub open spec fn hashable(key: Seq<char>) -> bool {
    encode_utf8(key).len() + 36 <= MAX_HASH_INPUT
}

/// The token that answers the handshake key `b64_key`.
pub fn hash_key(b64_key: &str) -> (accept: String)
    requires
        hashable(b64_key@),
    ensures
        accept@ == accept_token(b64_key@),
        accept@.len() == 28,
        is_ascii_chars(accept@),
{
    let mut input = String::from_str(b64_key);
    input.append("258EAFA5-E914-47DA-95CA-C5AB0DC85B11");
    proof {
        reveal_strlit("258EAFA5-E914-47DA-95CA-C5AB0DC85B11");
        lemma_encode_utf8_concat(b64_key@, guid());
        assert(is_ascii_chars(guid()));
        is_ascii_chars_encode_utf8(guid());
    }
    let sha_input = hash_sha1(input.as_str());
    base64_encode(sha_input.as_slice())
}

/// The answer that carries `token`, as it goes on the wire.
pub fn accept_message(token: &str) -> (res: String)
    ensures
        res@ == accept_text(token@),
        res@.len() == token@.len() + 101,
        is_ascii_chars(token@) ==> is_ascii_chars(res@),
{
    let mut res = String::from_str(
        "HTTP/1.1 101 Switching Protocols\r\nUpgrade: websocket\r\nConnection: Upgrade\r\nSec-WebSocket-Accept: ",
    );
    res.append(token);
    res.append("\r\n\r\n");
    proof {
        reveal_strlit(
            "HTTP/1.1 101 Switching Protocols\r\nUpgrade: websocket\r\nConnection: Upgrade\r\nSec-WebSocket-Accept: ",
        );
        reveal_strlit("\r\n\r\n");
        assert(is_ascii_chars(accept_head()));
        assert(is_ascii_chars(accept_tail()));
    }
    res
}

/// The answer to a handshake with the key `b64_key`, as it goes on the wire.
pub fn make_accept(b64_key: &str) -> (res: String)
    requires
        hashable(b64_key@),
    ensures
        res@ == accept_response(b64_key@),
        res@.len() == ACCEPT_LEN,
        is_ascii_chars(res@),
{
    let token = hash_key(b64_key);
    accept_message(token.as_str())
}

} // verus!
