use bytes::BytesMut;
use websocket::{
    accept_message, encode, hash_key, make_accept, new_text_frame, response_len, Frame, Header,
    Opcode,
};

#[test]
fn test_hash_key_rfc_example() {
    assert_eq!(hash_key("dGhlIHNhbXBsZSBub25jZQ=="), "s3pPLMBiTxaQ9kYGzzhZRbK+xOo=");
}

#[test]
fn ws_response_fin_bin_unmasked_empty() {
    let frame = Frame {
        header: Header {
            is_final: true,
            opcode: Opcode::Binary,
            is_masked: false,
            payload_len: 0,
            masking_key: 0,
        },
        payload: Vec::new(),
    };

    let expected_data = vec![
        0x80u8 + 0x02u8, // fin bin
        0x00u8 + 0x00u8, // unmasked empty
    ];
    let mut buf = BytesMut::with_capacity(0);
    encode(frame, &mut buf);

    assert_eq!(buf, expected_data);
}

#[test]
fn ws_response_fin_bin_unmasked_small_payload() {
    let frame = Frame {
        header: Header {
            is_final: true,
            opcode: Opcode::Binary,
            is_masked: false,
            payload_len: 5,
            masking_key: 0,
        },
        payload: vec![1, 2, 3, 4, 5],
    };

    let expected_data = vec![
        0x80u8 + 0x02u8, // fin bin
        0x00u8 + 0x05u8, // unmasked 5 long
        1u8,
        2u8,
        3u8,
        4u8,
        5u8,
    ];
    let mut buf = BytesMut::with_capacity(0);
    encode(frame, &mut buf);

    assert_eq!(buf, expected_data);
}

#[test]
fn ws_response_con_con_masked_medium_payload() {
    let payload = vec![5u8; 256]; // length 0x100
    let frame = Frame {
        header: Header {
            is_final: false,
            opcode: Opcode::Continuation,
            is_masked: true,
            payload_len: 256,
            masking_key: 0x11121314,
        },
        payload: payload.clone(),
    };

    let mut expected_data = vec![
        0x00u8 + 0x00u8, // continuation continuation
        0x80u8 + 0x7eu8, // masked 16 bit length
        0x01,            // payload length = 0x01 00
        0x00,
        0x11, // maskingKey = 0x11121314
        0x12,
        0x13,
        0x14,
    ];
    expected_data.extend(payload.iter());

    let mut buf = BytesMut::with_capacity(0);
    encode(frame, &mut buf);

    assert_eq!(buf, expected_data);
}

#[test]
fn ws_response_con_con_masked_large_payload() {
    let payload = vec![5u8; 65536]; // length 0x10000
    let frame = Frame {
        header: Header {
            is_final: false,
            opcode: Opcode::Continuation,
            is_masked: true,
            payload_len: 65536,
            masking_key: 0x11121314,
        },
        payload: payload.clone(),
    };

    let mut expected_data = vec![
        0x00u8 + 0x00u8, // continuation continuation
        0x80u8 + 0x7fu8, // masked 64 bit length
        0x00,            // payload length = 0x00 00 00 00 00 01 00 00
        0x00,
        0x00,
        0x00,
        0x00,
        0x01,
        0x00,
        0x00,
        0x11, // maskingKey = 0x11121314
        0x12,
        0x13,
        0x14,
    ];
    expected_data.extend(payload.iter());

    let mut buf = BytesMut::with_capacity(0);
    encode(frame, &mut buf);

    assert_eq!(buf, expected_data);
}

#[test]
fn tiny_text_frame() {
    let text = "blub";
    let mut expected_data = vec![0x81u8, 0x04u8];
    expected_data.extend(text.as_bytes());
    let ttf = new_text_frame(text, None);
    let mut buf = BytesMut::with_capacity(0);
    encode(ttf, &mut buf);
    assert_eq!(buf, expected_data);
}

#[test]
fn tiny_text_frame_masked() {
    let text = "blub";
    let expected_start = [0x81u8, 0x84u8];
    let ttf = new_text_frame(text, Some(0x11121314));
    assert_eq!(ttf.clone().payload_string().unwrap(), text);
    let mut buf = BytesMut::with_capacity(128);
    encode(ttf, &mut buf);

    assert_eq!(buf[0], expected_start[0]);
    assert_eq!(buf[1], expected_start[1]);
}

fn frame_of(opcode: Opcode, is_final: bool, key: Option<u32>, payload: Vec<u8>) -> Frame {
    Frame {
        header: Header {
            is_final,
            opcode,
            is_masked: key.is_some(),
            payload_len: payload.len(),
            masking_key: key.unwrap_or(0),
        },
        payload,
    }
}

#[test]
fn encode_adds_behind_what_the_buffer_holds() {
    let mut buf = BytesMut::from(vec![0xeeu8, 0xdd]);
    encode(frame_of(Opcode::Pong, true, None, vec![7]), &mut buf);
    assert_eq!(buf, vec![0xeeu8, 0xdd, 0x8a, 0x01, 7]);
    encode(frame_of(Opcode::Close, true, Some(0x0a0b0c0d), vec![1, 2]), &mut buf);
    assert_eq!(
        buf,
        vec![0xeeu8, 0xdd, 0x8a, 0x01, 7, 0x88, 0x82, 0x0a, 0x0b, 0x0c, 0x0d, 1, 2]
    );
}

#[test]
fn length_marker_boundaries() {
    let mut buf = BytesMut::with_capacity(0);
    encode(frame_of(Opcode::Binary, true, None, vec![0u8; 125]), &mut buf);
    assert_eq!(&buf[..2], &[0x82u8, 125][..]);
    assert_eq!(buf.len(), 127);

    let mut buf = BytesMut::with_capacity(0);
    encode(frame_of(Opcode::Binary, true, None, vec![0u8; 126]), &mut buf);
    assert_eq!(&buf[..4], &[0x82u8, 126, 0x00, 0x7e][..]);
    assert_eq!(buf.len(), 130);

    let mut buf = BytesMut::with_capacity(0);
    encode(frame_of(Opcode::Binary, true, None, vec![0u8; 65535]), &mut buf);
    assert_eq!(&buf[..4], &[0x82u8, 126, 0xff, 0xff][..]);
    assert_eq!(buf.len(), 65539);

    let mut buf = BytesMut::with_capacity(0);
    encode(frame_of(Opcode::Binary, true, None, vec![0u8; 65536]), &mut buf);
    assert_eq!(&buf[..10], &[0x82u8, 127, 0, 0, 0, 0, 0, 1, 0, 0][..]);
    assert_eq!(buf.len(), 65546);
}

#[test]
fn response_len_counts_header_and_payload() {
    assert_eq!(response_len(&frame_of(Opcode::Text, true, None, vec![])), 2);
    assert_eq!(response_len(&frame_of(Opcode::Text, true, None, vec![0; 125])), 127);
    assert_eq!(response_len(&frame_of(Opcode::Text, true, None, vec![0; 126])), 130);
    assert_eq!(response_len(&frame_of(Opcode::Text, true, Some(1), vec![0; 126])), 134);
    assert_eq!(response_len(&frame_of(Opcode::Text, true, None, vec![0; 65535])), 65539);
    assert_eq!(response_len(&frame_of(Opcode::Text, true, None, vec![0; 65536])), 65546);
    assert_eq!(response_len(&frame_of(Opcode::Text, true, Some(1), vec![0; 65536])), 65550);
    assert_eq!(response_len(&frame_of(Opcode::Text, true, Some(1), vec![0; 3])), 9);
}

#[test]
fn hash_key_depends_on_the_key() {
    assert_eq!(hash_key("x3JJHMbDL1EzLkh9GBhXDw=="), "HSmrc0sMlYUkAGmm5OPpG2HaGWk=");
    assert_ne!(hash_key(""), hash_key("dGhlIHNhbXBsZSBub25jZQ=="));
    assert_eq!(hash_key("").len(), 28);
}

#[test]
fn make_accept_is_the_101_answer() {
    let answer = make_accept("dGhlIHNhbXBsZSBub25jZQ==");
    assert_eq!(
        answer,
        "HTTP/1.1 101 Switching Protocols\r\nUpgrade: websocket\r\nConnection: Upgrade\r\nSec-WebSocket-Accept: s3pPLMBiTxaQ9kYGzzhZRbK+xOo=\r\n\r\n"
    );
    assert_eq!(answer.len(), 129);
}

#[test]
fn accept_message_carries_the_token() {
    assert_eq!(
        accept_message("abc"),
        "HTTP/1.1 101 Switching Protocols\r\nUpgrade: websocket\r\nConnection: Upgrade\r\nSec-WebSocket-Accept: abc\r\n\r\n"
    );
    assert_eq!(accept_message("").len(), 101);
}
