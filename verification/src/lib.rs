//! Server-side WebSocket protocol engine: the frame model, the binary frame
//! codec and the handshake, as verified functions over byte buffers.

use bytes::BytesMut;
use vstd::prelude::*;
use vstd::utf8::{decode_utf8, decode_utf8_encode_utf8, encode_utf8, valid_utf8};

pub mod big_endian;
pub mod bytes_buf;
pub mod handshake;
pub mod round_trip;
pub mod stream;
pub mod ws_frame;
pub mod ws_request;
pub mod ws_response;

pub use handshake::{is_key_header, key_position, HeaderField, HttpHead, HttpParse};
pub use ws_frame::{
    mask_bytes, new_text_frame, opcode_to_u8, u8_to_opcode, Frame, Header, Opcode, TextError,
};
pub use ws_request::{decode, DecodeError, Request};
pub use ws_response::{
    accept_message, encode, hash_key, make_accept, response_len, Response,
};

verus! {

/// The protocol: one codec for each connection.
pub struct WebSocket;

impl WebSocket {
    /// The codec that a newly bound transport starts with.
    pub fn codec(&self) -> (codec: WebSocketCodec)
        ensures
            codec@ == ConnectionState::AwaitingHandshake,
    {
        WebSocketCodec::new()
    }
}

/// Why a message cannot be sent.
#[derive(Debug, PartialEq, Eq, Structural, Clone, Copy)]
pub enum EncodeError {
    /// A frame was to be sent before the handshake had been received.
    EncodeBeforeUpgrade,
}

#[derive(Debug)]
enum WebSocketState {
    Http(),
    Upgrade(String),
    Connected(),
}

/// Where a connection stands.
pub ghost enum ConnectionState {
    /// The opening request has not been received.
    AwaitingHandshake,
    /// The opening request has been received with this key, and not yet been
    /// answered.
    Upgrading { key: Seq<char> },
    /// The handshake has been answered: frames go both ways.
    Established,
}

impl ConnectionState {
    /// How far a connection has come. No call takes a connection back.
    pub open spec fn rank(self) -> nat {
        match self {
            ConnectionState::AwaitingHandshake => 0,
            ConnectionState::Upgrading { key } => 1,
            ConnectionState::Established => 2,
        }
    }
}

/// The codec of one connection: it knows where the connection stands, and
/// reads and writes accordingly.
pub struct WebSocketCodec {
    state: WebSocketState,
}

impl View for WebSocketCodec {
    type V = ConnectionState;

    closed spec fn view(&self) -> ConnectionState {
        match self.state {
            WebSocketState::Http() => ConnectionState::AwaitingHandshake,
            WebSocketState::Upgrade(key) => ConnectionState::Upgrading { key: key@ },
            WebSocketState::Connected() => ConnectionState::Established,
        }
    }
}

/// What the opening request asks of a connection that awaits it: nothing
/// while it is incomplete or carries no key, an error where it is malformed
/// or its key is no text that can be hashed, else the key.
pub open spec fn handshake_spec(head: HttpHead) -> Result<Option<Seq<char>>, DecodeError> {
    match head {
        HttpHead::Incomplete => Ok(None),
        HttpHead::Malformed => Err(DecodeError::HandshakeMalformed),
        HttpHead::Complete { consumed, headers } => match handshake::find_key(headers) {
            None => Ok(None),
            Some(value) => if valid_utf8(value) && value.len() + 36
                <= ws_response::MAX_HASH_INPUT {
                Ok(Some(decode_utf8(value)))
            } else {
                Err(DecodeError::HandshakeMalformed)
            },
        },
    }
}

/// How a connection that awaited the handshake, and was handed the request
/// head `head`, goes on: with the result `res`, and standing at `after`.
pub open spec fn handshake_outcome(
    head: HttpHead,
    after: ConnectionState,
    res: Result<Option<Request>, DecodeError>,
) -> bool {
    match handshake_spec(head) {
        Ok(Some(key)) => res matches Ok(Some(Request::Open())) && after
            == (ConnectionState::Upgrading { key }),
        Ok(None) => res matches Ok(None) && after == ConnectionState::AwaitingHandshake,
        Err(e) => res == Err::<Option<Request>, DecodeError>(e) && after
            == ConnectionState::AwaitingHandshake,
    }
}

/// What is left of the bytes `before` once the request head at their front
/// has been read: all of them, unless a whole head was there.
pub open spec fn after_head(head: HttpHead, before: Seq<u8>) -> Seq<u8> {
    match head {
        HttpHead::Complete { consumed, headers } => before.skip(consumed as int),
        _ => before,
    }
}

impl WebSocketCodec {
    /// A key that is kept for the answer can be hashed.
    #[verifier::type_invariant]
    spec fn wf(&self) -> bool {
        self.state matches WebSocketState::Upgrade(key) ==> ws_response::hashable(key@)
    }

    /// The number of bytes that go out before the next frame: the answer to
    /// the handshake where it is still to be written, else none.
    pub open spec fn preface_len(&self) -> nat {
        if self@ is Upgrading {
            ws_response::ACCEPT_LEN as nat
        } else {
            0
        }
    }

    /// The codec of a new connection, which awaits the handshake.
    pub fn new() -> (codec: WebSocketCodec)
        ensures
            codec@ == ConnectionState::AwaitingHandshake,
    {
        WebSocketCodec { state: WebSocketState::Http() }
    }

    /// Whether the opening request is still to come.
    pub fn is_awaiting_handshake(&self) -> (awaiting: bool)
        ensures
            awaiting == (self@ == ConnectionState::AwaitingHandshake),
    {
        match self.state {
            WebSocketState::Http() => true,
            _ => false,
        }
    }

    /// Takes what the HTTP parser made of the opening request. A request
    /// with a handshake key moves the connection on to the upgrade and is
    /// reported as `Open`; anything else leaves the connection where it is.
    /// Once the request has been received, later ones are passed over.
    pub fn decode_handshake(&mut self, parsed: &HttpParse) -> (res: Result<
        Option<Request>,
        DecodeError,
    >)
        ensures
            old(self)@.rank() <= final(self)@.rank(),
            old(self)@ != ConnectionState::AwaitingHandshake ==> (res matches Ok(None)) && final(self)@
                == old(self)@,
            old(self)@ == ConnectionState::AwaitingHandshake ==> handshake_outcome(
                parsed@,
                final(self)@,
                res,
            ),
    {
        if !self.is_awaiting_handshake() {
            return Ok(None);
        }
        match parsed {
            HttpParse::Incomplete => Ok(None),
            HttpParse::Malformed => Err(DecodeError::HandshakeMalformed),
            HttpParse::Complete(_, headers) => {
                let at = match handshake::key_position(headers) {
                    Some(at) => at,
                    None => return Ok(None),
                };
                let value = &headers[at].value;
                if value.len() as u64 > ws_response::MAX_HASH_INPUT - 36 {
                    return Err(DecodeError::HandshakeMalformed);
                }
                match ws_frame::string_from_utf8(vstd::slice::slice_to_vec(value.as_slice())) {
                    Ok(key) => {
                        proof {
                            decode_utf8_encode_utf8(value@);
                        }
                        self.state = WebSocketState::Upgrade(key);
                        Ok(Some(Request::Open()))
                    },
                    Err(_) => Err(DecodeError::HandshakeMalformed),
                }
            },
        }
    }

    /// Reads the next event from the front of the buffer.
    ///
    /// While the handshake is awaited, the bytes are read as the head of an
    /// HTTP request. A whole head leaves the buffer; one with a handshake
    /// key is reported as `Open`. After that, one frame is taken from the
    /// buffer, if one is there whole, as `ws_request::decode` does.
    pub fn decode(&mut self, buf: &mut BytesMut) -> (res: Result<Option<Request>, DecodeError>)
        ensures
            old(self)@.rank() <= final(self)@.rank(),
            old(self)@ == ConnectionState::AwaitingHandshake ==> handshake_outcome(
                handshake::http_head(bytes_buf::contents(*old(buf))),
                final(self)@,
                res,
            ) && bytes_buf::contents(*final(buf)) == after_head(
                handshake::http_head(bytes_buf::contents(*old(buf))),
                bytes_buf::contents(*old(buf)),
            ),
            old(self)@ != ConnectionState::AwaitingHandshake ==> final(self)@ == old(self)@
                && ws_request::decode_outcome(
                bytes_buf::contents(*old(buf)),
                bytes_buf::contents(*final(buf)),
                res,
            ),
    {
        if self.is_awaiting_handshake() {
            let parsed = handshake::parse_request_head(buf);
            match &parsed {
                HttpParse::Complete(consumed, _) => {
                    let _ = bytes_buf::split_front(buf, *consumed);
                },
                _ => {},
            }
            self.decode_handshake(&parsed)
        } else {
            ws_request::decode(buf)
        }
    }

    /// Sends a frame. Before the opening request has been received this is
    /// refused. The first frame after it is preceded by the answer to the
    /// handshake, and the connection is established from then on.
    pub fn encode(&mut self, msg: Response, buf: &mut BytesMut) -> (res: Result<(), EncodeError>)
        requires
            bytes_buf::contents(*old(buf)).len() + old(self).preface_len()
                + msg.header.payload_len + 14 <= isize::MAX,
            bytes_buf::contents(*old(buf)).len() + old(self).preface_len() + msg.payload@.len()
                + 14 <= isize::MAX,
        ensures
            old(self)@.rank() <= final(self)@.rank(),
            (match old(self)@ {
                ConnectionState::AwaitingHandshake => res == Err::<(), EncodeError>(
                    EncodeError::EncodeBeforeUpgrade,
                ) && final(self)@ == old(self)@ && bytes_buf::contents(*final(buf))
                    == bytes_buf::contents(*old(buf)),
                ConnectionState::Upgrading { key } => res is Ok && final(self)@
                    == ConnectionState::Established && bytes_buf::contents(*final(buf))
                    == bytes_buf::contents(*old(buf)) + encode_utf8(
                    ws_response::accept_response(key),
                ) + ws_response::frame_bytes(msg@),
                ConnectionState::Established => res is Ok && final(self)@
                    == ConnectionState::Established && bytes_buf::contents(*final(buf))
                    == bytes_buf::contents(*old(buf)) + ws_response::frame_bytes(msg@),
            }),
    {
        proof {
            use_type_invariant(&*self);
        }
        match &self.state {
            WebSocketState::Http() => {
                return Err(EncodeError::EncodeBeforeUpgrade);
            },
            WebSocketState::Upgrade(key) => {
                let accept = ws_response::make_accept(key.as_str());
                let bytes = accept.as_str().as_bytes();
                proof {
                    vstd::utf8::is_ascii_chars_encode_utf8(accept@);
                }
                bytes_buf::append(buf, bytes);
                ws_response::encode(msg, buf);
            },
            WebSocketState::Connected() => {
                ws_response::encode(msg, buf);
            },
        }
        self.state = WebSocketState::Connected();
        Ok(())
    }
}

} // verus!
