//! What encoding and decoding are to each other.

use vstd::prelude::*;
use vstd::utf8::{decode_utf8, valid_utf8};

use crate::big_endian::{be_bytes, lemma_be_bytes_len, lemma_be_limits, lemma_be_value_of_bytes};
use crate::ws_frame::{lemma_mask_twice, mask_spec, opcode_bits, opcode_of_bits, FrameView, Header};
use crate::ws_request::{
    announced_len, base_width, decode_spec, parse_header_spec, DecodeError, Decoded, HeaderParse,
};
use crate::ws_response::{
    extended_len_bytes, fixed_bytes, frame_bytes, header_bytes, length_marker,
    lemma_header_bytes_len,
};

verus! {

/// The two fixed bytes of a header say again what went into them.
proof fn lemma_fixed_bytes_read(header: Header)
    ensures
        fixed_bytes(header).len() == 2,
        (fixed_bytes(header)[0] & 0x80 > 0) == header.is_final,
        opcode_of_bits(fixed_bytes(header)[0] & 0x0f) == Some(header.opcode),
        (fixed_bytes(header)[1] & 0x80 > 0) == header.is_masked,
        fixed_bytes(header)[1] & 0x7f == length_marker(header.payload_len as nat),
{
    let f = if header.is_final { 0x80u8 } else { 0u8 };
    let m = if header.is_masked { 0x80u8 } else { 0u8 };
    let op = opcode_bits(header.opcode);
    let l = length_marker(header.payload_len as nat);
    assert(((f | op) & 0x0f == op) && (((f | op) & 0x80 > 0) == (f == 0x80))) by (bit_vector)
        requires
            op <= 10,
            f == 0x80 || f == 0,
    ;
    assert(((m | l) & 0x7f == l) && (((m | l) & 0x80 > 0) == (m == 0x80))) by (bit_vector)
        requires
            l <= 127,
            m == 0x80 || m == 0,
    ;
}

/// Once the whole header of a frame is there, it is read as it was written,
/// whatever follows it.
pub proof fn lemma_parse_written_header(frame: FrameView, bytes: Seq<u8>)
    requires
        frame.wf(),
        bytes.len() >= header_bytes(frame.header).len(),
        bytes.subrange(0, header_bytes(frame.header).len() as int) == header_bytes(frame.header),
    ensures
        parse_header_spec(bytes) == (HeaderParse::Complete {
            header: frame.header,
            width: header_bytes(frame.header).len(),
        }),
{
    let header = frame.header;
    let head = header_bytes(header);
    let len = header.payload_len as nat;
    let ext = extended_len_bytes(len);
    lemma_fixed_bytes_read(header);
    lemma_header_bytes_len(header);
    lemma_be_bytes_len(len, 2);
    lemma_be_bytes_len(len, 8);
    lemma_be_bytes_len(header.masking_key as nat, 4);
    lemma_be_limits();
    assert forall|i: int| 0 <= i < head.len() implies bytes[i] == head[i] by {
        assert(bytes.subrange(0, head.len() as int)[i] == bytes[i]);
    }
    assert(bytes[0] == fixed_bytes(header)[0]);
    assert(bytes[1] == fixed_bytes(header)[1]);
    let base = base_width(bytes[1] & 0x7f);
    assert(base == 2 + ext.len());
    if len >= 65536 {
        assert(bytes.subrange(2, 10) =~= be_bytes(len, 8));
        lemma_be_value_of_bytes(len, 8);
    } else if len >= 126 {
        assert(bytes.subrange(2, 4) =~= be_bytes(len, 2));
        lemma_be_value_of_bytes(len, 2);
    }
    assert(announced_len(bytes) == len);
    if header.is_masked {
        assert(bytes.subrange(base as int, base as int + 4) =~= be_bytes(
            header.masking_key as nat,
            4,
        ));
        lemma_be_value_of_bytes(header.masking_key as nat, 4);
    }
}

/// Decoding what was encoded gives the frame back, and takes the bytes of
/// that frame and no others, whatever follows them.
pub proof fn lemma_decode_encoded(frame: FrameView, rest: Seq<u8>)
    requires
        frame.wf(),
    ensures
        decode_spec(frame_bytes(frame) + rest) == (Decoded::Complete {
            frame,
            consumed: frame_bytes(frame).len(),
        }),
        (frame_bytes(frame) + rest).skip(frame_bytes(frame).len() as int) == rest,
{
    let bytes = frame_bytes(frame) + rest;
    let head = header_bytes(frame.header);
    assert(bytes.subrange(0, head.len() as int) =~= head);
    lemma_parse_written_header(frame, bytes);
    assert(bytes.subrange(head.len() as int, (head.len() + frame.payload.len()) as int) =~= frame.payload);
    assert(bytes.skip(frame_bytes(frame).len() as int) =~= rest);
}

/// A frame that is not masked comes back from its wire form as it was, and
/// nothing is left of the bytes.
pub proof fn lemma_round_trip_unmasked(frame: FrameView)
    requires
        frame.wf(),
        !frame.header.is_masked,
    ensures
        decode_spec(frame_bytes(frame)) == (Decoded::Complete {
            frame,
            consumed: frame_bytes(frame).len(),
        }),
        frame_bytes(frame).skip(frame_bytes(frame).len() as int) == Seq::<u8>::empty(),
{
    lemma_decode_encoded(frame, Seq::empty());
    assert(frame_bytes(frame) + Seq::<u8>::empty() =~= frame_bytes(frame));
}

/// A masked frame whose payload is the masked form of a text in UTF-8 comes
/// back from its wire form with the same header, and reads as that text.
pub proof fn lemma_round_trip_masked(frame: FrameView, plaintext: Seq<u8>)
    requires
        frame.wf(),
        frame.header.is_masked,
        valid_utf8(plaintext),
        frame.payload == mask_spec(frame.header.masking_key, plaintext),
    ensures
        (decode_spec(frame_bytes(frame)) matches Decoded::Complete { frame: back, consumed }
            && back.header == frame.header && back.text() == Some(decode_utf8(plaintext))
            && consumed == frame_bytes(frame).len()),
{
    lemma_decode_encoded(frame, Seq::empty());
    assert(frame_bytes(frame) + Seq::<u8>::empty() =~= frame_bytes(frame));
    lemma_mask_twice(frame.header.masking_key, plaintext);
}

/// A frame that the decoder takes is well-formed, and the bytes taken are
/// its header and its payload: at least two, and no more than are there.
/// What follows them has no part in it.
pub proof fn lemma_decode_is_local(bytes: Seq<u8>, other: Seq<u8>)
    requires
        decode_spec(bytes) is Complete,
    ensures
        (decode_spec(bytes) matches Decoded::Complete { frame, consumed } && (parse_header_spec(
            bytes,
        ) matches HeaderParse::Complete { header, width } && {
            &&& frame.wf()
            &&& frame.header == header
            &&& 2 <= width <= 14
            &&& consumed == width + frame.payload.len()
            &&& consumed <= bytes.len()
            &&& decode_spec(bytes.subrange(0, consumed as int) + other) == decode_spec(bytes)
        })),
{
    match parse_header_spec(bytes) {
        HeaderParse::Complete { header, width } => {
            let consumed = width + header.payload_len as nat;
            let taken = bytes.subrange(0, consumed as int) + other;
            let base = base_width(bytes[1] & 0x7f);
            assert(taken[0] == bytes[0]);
            assert(taken[1] == bytes[1]);
            if base == 4 {
                assert(taken.subrange(2, 4) =~= bytes.subrange(2, 4));
            }
            if base == 10 {
                assert(taken.subrange(2, 10) =~= bytes.subrange(2, 10));
            }
            if header.is_masked {
                assert(taken.subrange(base as int, base as int + 4) =~= bytes.subrange(
                    base as int,
                    base as int + 4,
                ));
            }
            assert(parse_header_spec(taken) == parse_header_spec(bytes));
            assert(taken.subrange(width as int, consumed as int) =~= bytes.subrange(
                width as int,
                consumed as int,
            ));
        },
        _ => {},
    }
}

/// A proper prefix of a frame's wire form that ends before the second byte,
/// or holds the whole header, is not yet a frame: the decoder waits.
pub proof fn lemma_prefix_is_partial(frame: FrameView, n: int)
    requires
        frame.wf(),
        0 <= n < frame_bytes(frame).len(),
        n < 2 || n >= header_bytes(frame.header).len(),
    ensures
        decode_spec(frame_bytes(frame).subrange(0, n)) == Decoded::Partial,
{
    let prefix = frame_bytes(frame).subrange(0, n);
    let head = header_bytes(frame.header);
    if n >= 2 {
        assert(prefix.subrange(0, head.len() as int) =~= head);
        lemma_parse_written_header(frame, prefix);
    }
}

/// A prefix of a frame's wire form that holds the two fixed bytes and breaks
/// off inside the rest of the header is refused as a short header.
pub proof fn lemma_prefix_inside_header(frame: FrameView, n: int)
    requires
        frame.wf(),
        2 <= n < header_bytes(frame.header).len(),
    ensures
        decode_spec(frame_bytes(frame).subrange(0, n)) == Decoded::Failed(
            DecodeError::ShortHeader,
        ),
{
    let header = frame.header;
    let prefix = frame_bytes(frame).subrange(0, n);
    let len = header.payload_len as nat;
    lemma_fixed_bytes_read(header);
    lemma_header_bytes_len(header);
    lemma_be_bytes_len(len, 2);
    lemma_be_bytes_len(len, 8);
    lemma_be_limits();
    assert(prefix[0] == fixed_bytes(header)[0]);
    assert(prefix[1] == fixed_bytes(header)[1]);
    if len >= 65536 {
        if n >= 10 {
            assert(prefix.subrange(2, 10) =~= be_bytes(len, 8));
            lemma_be_value_of_bytes(len, 8);
        }
    } else if len >= 126 {
        if n >= 4 {
            assert(prefix.subrange(2, 4) =~= be_bytes(len, 2));
            lemma_be_value_of_bytes(len, 2);
        }
    }
}

} // verus!
