//! The opening handshake: the head of the HTTP request, read by `httparse`,
//! and the key among its header fields.

use bytes::BytesMut;
use vstd::prelude::*;
use vstd::string::StringSliceAdditionalSpecFns;
use vstd::utf8::encode_utf8;

use crate::bytes_buf::contents;

verus! {

/// One header line of the opening request: its name, and its value as the
/// bytes that were received.
#[derive(Debug, Clone)]
pub struct HeaderField {
    pub name: String,
    pub value: Vec<u8>,
}

impl View for HeaderField {
    type V = (Seq<char>, Seq<u8>);

    open spec fn view(&self) -> (Seq<char>, Seq<u8>) {
        (self.name@, self.value@)
    }
}

/// What the HTTP parser made of the bytes received so far.
#[derive(Debug, Clone)]
pub enum HttpParse {
    /// The request has not arrived whole.
    Incomplete,
    /// The bytes are no HTTP request.
    Malformed,
    /// A whole request head: the number of bytes that it takes, and its
    /// header fields in the order received.
    Complete(usize, Vec<HeaderField>),
}

/// The head of an HTTP request as a mathematical value.
pub ghost enum HttpHead {
    Incomplete,
    Malformed,
    Complete { consumed: nat, headers: Seq<(Seq<char>, Seq<u8>)> },
}

/// The header fields as pairs of name and value.
pub open spec fn fields_view(headers: Seq<HeaderField>) -> Seq<(Seq<char>, Seq<u8>)> {
    Seq::new(headers.len(), |i: int| headers[i]@)
}

impl View for HttpParse {
    type V = HttpHead;

    open spec fn view(&self) -> HttpHead {
        match *self {
            HttpParse::Incomplete => HttpHead::Incomplete,
            HttpParse::Malformed => HttpHead::Malformed,
            HttpParse::Complete(consumed, headers) => HttpHead::Complete {
                consumed: consumed as nat,
                headers: fields_view(headers@),
            },
        }
    }
}

/// The number of header fields that a request may have. One with more is
/// malformed.
pub const MAX_HEADER_FIELDS: usize = 16;

/// What `httparse` makes of the front of a byte sequence, read as the head
/// of a request with room for `MAX_HEADER_FIELDS` header fields.
pub uninterp spec fn http_head(bytes: Seq<u8>) -> HttpHead;

/// `httparse::Request::parse` on the bytes that the buffer holds: whether
/// they begin with a whole request head, and then how many bytes it takes,
/// which are no more than are there, and its header fields. The buffer stays
/// as it is.
#[verifier::external_body]
pub(crate) fn parse_request_head(buf: &BytesMut) -> (parsed: HttpParse)
    ensures
        parsed@ == http_head(contents(*buf)),
        parsed matches HttpParse::Complete(consumed, _) ==> consumed <= contents(*buf).len(),
{
    let mut fields = [httparse::EMPTY_HEADER; MAX_HEADER_FIELDS];
    let mut req = httparse::Request::new(&mut fields);
    match req.parse(&buf[..]) {
        Ok(httparse::Status::Complete(consumed)) => HttpParse::Complete(
            consumed,
            req.headers.iter().map(|h| HeaderField { name: h.name.to_string(), value: h.value.to_vec() }).collect(),
        ),
        Ok(httparse::Status::Partial) => HttpParse::Incomplete,
        Err(_) => HttpParse::Malformed,
    }
}

/// A byte with an ASCII capital letter turned into the small one.
pub open spec fn ascii_lower(byte: u8) -> u8 {
    if 0x41 <= byte <= 0x5a {
        (byte + 0x20) as u8
    } else {
        byte
    }
}

/// Two byte strings are the same but for the case of ASCII letters.
pub open spec fn same_ignoring_case(a: Seq<u8>, b: Seq<u8>) -> bool {
    &&& a.len() == b.len()
    &&& forall|i: int| 0 <= i < a.len() ==> ascii_lower(#[trigger] a[i]) == ascii_lower(b[i])
}

/// The name of the header that carries the handshake key.
pub open spec fn key_header_name() -> Seq<char> {
    "Sec-WebSocket-Key"@
}

/// Whether a header name is that of the handshake key, in any case of
/// letters.
pub open spec fn names_key(name: Seq<char>) -> bool {
    same_ignoring_case(encode_utf8(name), encode_utf8(key_header_name()))
}

/// The value of the first header field that carries the handshake key.
pub open spec fn find_key(headers: Seq<(Seq<char>, Seq<u8>)>) -> Option<Seq<u8>>
    decreases headers.len(),
{
    if headers.len() == 0 {
        None
    } else if names_key(headers[0].0) {
        Some(headers[0].1)
    } else {
        find_key(headers.drop_first())
    }
}

/// A byte with an ASCII capital letter turned into the small one.
fn lower(byte: u8) -> (out: u8)
    ensures
        out == ascii_lower(byte),
{
    if 0x41 <= byte && byte <= 0x5a {
        byte + 0x20
    } else {
        byte
    }
}

/// Whether `name` is the name of the header that carries the handshake key.
pub fn is_key_header(name: &str) -> (found: bool)
    ensures
        found == names_key(name@),
{
    let have = name.as_bytes();
    let want = "Sec-WebSocket-Key".as_bytes();
    assert(have@ == encode_utf8(name@));
    assert(want@ == encode_utf8(key_header_name()));
    if have.len() != want.len() {
        return false;
    }
    let mut i: usize = 0;
    while i < have.len()
        invariant
            i <= have.len(),
            have@.len() == want@.len(),
            have@ == encode_utf8(name@),
            want@ == encode_utf8(key_header_name()),
            forall|j: int| 0 <= j < i ==> ascii_lower(#[trigger] have@[j]) == ascii_lower(want@[j]),
        decreases have.len() - i,
    {
        if lower(have[i]) != lower(want[i]) {
            assert(ascii_lower(have@[i as int]) != ascii_lower(want@[i as int]));
            return false;
        }
        i += 1;
    }
    true
}

/// The index of the first header field that carries the handshake key.
pub fn key_position(headers: &Vec<HeaderField>) -> (at: Option<usize>)
    ensures
        (match at {
            Some(i) => i < headers@.len() && find_key(fields_view(headers@)) == Some(
                headers@[i as int].value@,
            ) && names_key(headers@[i as int].name@),
            None => find_key(fields_view(headers@)) is None,
        }),
        forall|j: int|
            0 <= j < headers@.len() && (at matches Some(i) ==> j < i) ==> !names_key(
                #[trigger] headers@[j].name@,
            ),
{
    let ghost all = fields_view(headers@);
    let mut i: usize = 0;
    assert(all.skip(0) =~= all);
    while i < headers.len()
        invariant
            i <= headers.len(),
            all == fields_view(headers@),
            find_key(all) == find_key(all.skip(i as int)),
            forall|j: int| 0 <= j < i ==> !names_key(#[trigger] headers@[j].name@),
        decreases headers.len() - i,
    {
        let ghost tail = all.skip(i as int);
        assert(tail[0] == headers@[i as int]@);
        assert(tail.drop_first() =~= all.skip(i + 1));
        if is_key_header(headers[i].name.as_str()) {
            return Some(i);
        }
        i += 1;
    }
    assert(all.skip(i as int).len() == 0);
    None
}

} // verus!
