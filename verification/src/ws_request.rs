//! The frame decoder: from the front of a byte queue to one frame, leaving
//! the queue untouched until a whole frame has arrived.

use bytes::BytesMut;
use vstd::prelude::*;

use crate::big_endian::be_value;
use crate::bytes_buf::{buf_len, byte_at, contents, read_u16_at, read_u32_at, read_u64_at, split_front};
use crate::ws_frame::{opcode_of_bits, u8_to_opcode, Frame, FrameView, Header};

verus! {

/// What the peer sent, as the application sees it.
#[derive(Debug)]
pub enum Request {
    /// The handshake has succeeded.
    Open(),
    /// A frame has arrived whole.
    Frame(Frame),
}

/// Why the bytes received cannot be decoded. Each is final for its
/// connection.
#[derive(Debug, PartialEq, Eq, Structural, Clone, Copy)]
pub enum DecodeError {
    /// The opcode is none of the six known ones.
    InvalidOpcode,
    /// The header announces an extended length or a masking key, and the
    /// bytes for it are not there.
    ShortHeader,
    /// The payload length does not fit the machine's size type.
    LengthOverflow,
    /// The opening HTTP request cannot be used.
    HandshakeMalformed,
}

/// The outcome of reading a header on the exec side.
pub enum ParseResult<T> {
    Complete(T, usize),
    Partial,
}

/// What the front of a byte sequence says as a frame header.
pub ghost enum HeaderParse {
    /// Fewer than two bytes: nothing can be said yet.
    Partial,
    Failed(DecodeError),
    /// A header, and the number of bytes that it takes.
    Complete { header: Header, width: nat },
}

/// What the front of a byte sequence says as a frame.
pub ghost enum Decoded {
    /// More bytes are needed.
    Partial,
    Failed(DecodeError),
    /// A frame, and the number of bytes that it takes.
    Complete { frame: FrameView, consumed: nat },
}

/// The width of the two fixed bytes and the extended length that the
/// seven-bit length marker calls for.
pub open spec fn base_width(marker: u8) -> nat {
    if marker == 126 {
        4
    } else if marker == 127 {
        10
    } else {
        2
    }
}

/// The payload length that the bytes announce, once the extended length is
/// there.
pub open spec fn announced_len(bytes: Seq<u8>) -> nat {
    let marker = bytes[1] & 0x7f;
    if marker == 126 {
        be_value(bytes.subrange(2, 4))
    } else if marker == 127 {
        be_value(bytes.subrange(2, 10))
    } else {
        marker as nat
    }
}

/// The header at the front of `bytes`: the final bit and the opcode from the
/// first byte (the three reserved bits are not looked at), the mask bit and
/// the length marker from the second, then the extended length and the
/// masking key, both big-endian.
pub open spec fn parse_header_spec(bytes: Seq<u8>) -> HeaderParse {
    if bytes.len() < 2 {
        HeaderParse::Partial
    } else if opcode_of_bits(bytes[0] & 0x0f) is None {
        HeaderParse::Failed(DecodeError::InvalidOpcode)
    } else {
        let base = base_width(bytes[1] & 0x7f);
        let is_masked = bytes[1] & 0x80 > 0;
        if bytes.len() < base {
            HeaderParse::Failed(DecodeError::ShortHeader)
        } else if announced_len(bytes) > usize::MAX {
            HeaderParse::Failed(DecodeError::LengthOverflow)
        } else if is_masked && bytes.len() < base + 4 {
            HeaderParse::Failed(DecodeError::ShortHeader)
        } else {
            HeaderParse::Complete {
                header: Header {
                    is_final: bytes[0] & 0x80 > 0,
                    opcode: opcode_of_bits(bytes[0] & 0x0f).unwrap(),
                    is_masked,
                    payload_len: announced_len(bytes) as usize,
                    masking_key: if is_masked {
                        be_value(bytes.subrange(base as int, base as int + 4)) as u32
                    } else {
                        0
                    },
                },
                width: if is_masked {
                    (base + 4) as nat
                } else {
                    base
                },
            }
        }
    }
}

/// The frame at the front of `bytes`: its header, then as many payload bytes
/// as the header announces, taken as they are.
pub open spec fn decode_spec(bytes: Seq<u8>) -> Decoded {
    match parse_header_spec(bytes) {
        HeaderParse::Partial => Decoded::Partial,
        HeaderParse::Failed(e) => Decoded::Failed(e),
        HeaderParse::Complete { header, width } => {
            if bytes.len() < width + header.payload_len {
                Decoded::Partial
            } else {
                Decoded::Complete {
                    frame: FrameView {
                        header,
                        payload: bytes.subrange(width as int, width as int + header.payload_len as int),
                    },
                    consumed: width + header.payload_len as nat,
                }
            }
        },
    }
}

/// Reads the header at the front of the buffer, without taking anything out
/// of it.
pub fn parse_header(buf: &BytesMut) -> (res: Result<ParseResult<Header>, DecodeError>)
    ensures
        (match parse_header_spec(contents(*buf)) {
            HeaderParse::Partial => res matches Ok(ParseResult::Partial),
            HeaderParse::Failed(e) => res == Err::<ParseResult<Header>, DecodeError>(e),
            HeaderParse::Complete { header, width } => res matches Ok(ParseResult::Complete(h, w))
                && h == header && w == width && w <= contents(*buf).len(),
        }),
{
    let len = buf_len(buf);
    if len < 2 {
        return Ok(ParseResult::Partial);
    }
    let b0 = byte_at(buf, 0);
    let b1 = byte_at(buf, 1);
    let is_final = b0 & 0x80 > 0;
    let opcode = match u8_to_opcode(b0 & 0x0f) {
        Some(op) => op,
        None => return Err(DecodeError::InvalidOpcode),
    };
    let is_masked = b1 & 0x80 > 0;
    let marker = b1 & 0x7f;
    let payload_len: usize;
    let base: usize;
    if marker == 126 {
        if len < 4 {
            return Err(DecodeError::ShortHeader);
        }
        payload_len = read_u16_at(buf, 2) as usize;
        base = 4;
    } else if marker == 127 {
        if len < 10 {
            return Err(DecodeError::ShortHeader);
        }
        let wide = read_u64_at(buf, 2);
        if wide > usize::MAX as u64 {
            return Err(DecodeError::LengthOverflow);
        }
        payload_len = wide as usize;
        base = 10;
    } else {
        payload_len = marker as usize;
        base = 2;
    }
    let masking_key: u32;
    let width: usize;
    if is_masked {
        if len - base < 4 {
            return Err(DecodeError::ShortHeader);
        }
        masking_key = read_u32_at(buf, base);
        width = base + 4;
    } else {
        masking_key = 0;
        width = base;
    }
    Ok(ParseResult::Complete(Header { is_final, opcode, is_masked, payload_len, masking_key }, width))
}

/// How a call of the decoder on a buffer that held `before` ends: with the
/// result `res` and `after` in the buffer.
pub open spec fn decode_outcome(
    before: Seq<u8>,
    after: Seq<u8>,
    res: Result<Option<Request>, DecodeError>,
) -> bool {
    match decode_spec(before) {
        Decoded::Partial => res matches Ok(None) && after == before,
        Decoded::Failed(e) => res == Err::<Option<Request>, DecodeError>(e) && after == before,
        Decoded::Complete { frame, consumed } => res matches Ok(Some(Request::Frame(f))) && f@
            == frame && consumed <= before.len() && after == before.skip(consumed as int),
    }
}

/// Takes one frame from the front of the buffer, if one is there whole.
///
/// Where the bytes do not yet hold a whole frame, or hold none at all, the
/// buffer stays as it was. Where they do, the frame's bytes and no others
/// leave the buffer.
pub fn decode(buf: &mut BytesMut) -> (res: Result<Option<Request>, DecodeError>)
    ensures
        decode_outcome(contents(*old(buf)), contents(*final(buf)), res),
{
    let (header, offset) = match parse_header(buf) {
        Ok(ParseResult::Complete(h, offset)) => (h, offset),
        Ok(ParseResult::Partial) => return Ok(None),
        Err(e) => return Err(e),
    };
    if header.payload_len > buf_len(buf) - offset {
        return Ok(None);
    }
    let ghost before = contents(*buf);
    let _ = split_front(buf, offset);
    let payload = split_front(buf, header.payload_len);
    proof {
        assert(payload@ =~= before.subrange(offset as int, offset + header.payload_len));
        assert(contents(*buf) =~= before.skip(offset + header.payload_len));
    }
    Ok(Some(Request::Frame(Frame { header, payload })))
}

} // verus!
