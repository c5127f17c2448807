use websocket::{
    mask_bytes, new_text_frame, opcode_to_u8, u8_to_opcode, Frame, Header, Opcode, TextError,
};

#[test]
fn opcodes_have_their_wire_values() {
    assert_eq!(opcode_to_u8(Opcode::Continuation), 0);
    assert_eq!(opcode_to_u8(Opcode::Text), 1);
    assert_eq!(opcode_to_u8(Opcode::Binary), 2);
    assert_eq!(opcode_to_u8(Opcode::Close), 8);
    assert_eq!(opcode_to_u8(Opcode::Ping), 9);
    assert_eq!(opcode_to_u8(Opcode::Pong), 10);
}

#[test]
fn wire_values_have_their_opcodes() {
    assert_eq!(u8_to_opcode(0), Some(Opcode::Continuation));
    assert_eq!(u8_to_opcode(1), Some(Opcode::Text));
    assert_eq!(u8_to_opcode(2), Some(Opcode::Binary));
    assert_eq!(u8_to_opcode(8), Some(Opcode::Close));
    assert_eq!(u8_to_opcode(9), Some(Opcode::Ping));
    assert_eq!(u8_to_opcode(10), Some(Opcode::Pong));
    for bits in [3u8, 4, 5, 6, 7, 11, 12, 13, 14, 15, 16, 0x81, 255] {
        assert_eq!(u8_to_opcode(bits), None);
    }
}

#[test]
fn opcode_conversions_are_inverse() {
    for bits in 0u8..=255 {
        if let Some(opcode) = u8_to_opcode(bits) {
            assert_eq!(opcode_to_u8(opcode), bits);
        }
    }
}

#[test]
fn mask_uses_the_key_bytes_in_wire_order() {
    let masked = mask_bytes(0x11121314, &[0, 0, 0, 0, 0, 0xff]);
    assert_eq!(masked, vec![0x11, 0x12, 0x13, 0x14, 0x11, 0xed]);
    assert_eq!(mask_bytes(0xff000000, &[1, 2, 3, 4, 5]), vec![0xfe, 2, 3, 4, 0xfa]);
    assert_eq!(mask_bytes(7, &[]), Vec::<u8>::new());
}

#[test]
fn mask_twice_gives_the_bytes_back() {
    let bytes: Vec<u8> = (0u8..=255).collect();
    let key = 0xdeadbeef;
    assert_ne!(mask_bytes(key, &bytes), bytes);
    assert_eq!(mask_bytes(key, &mask_bytes(key, &bytes)), bytes);
}

#[test]
fn text_frame_without_mask() {
    let frame = new_text_frame("blub", None);
    assert!(frame.header.is_final);
    assert_eq!(frame.header.opcode, Opcode::Text);
    assert!(!frame.header.is_masked);
    assert_eq!(frame.header.payload_len, 4);
    assert_eq!(frame.header.masking_key, 0);
    assert_eq!(frame.payload, b"blub".to_vec());
    assert_eq!(frame.payload_string(), Ok("blub".to_string()));
}

#[test]
fn text_frame_with_mask() {
    let frame = new_text_frame("blub", Some(0x11121314));
    assert!(frame.header.is_final);
    assert_eq!(frame.header.opcode, Opcode::Text);
    assert!(frame.header.is_masked);
    assert_eq!(frame.header.payload_len, 4);
    assert_eq!(frame.header.masking_key, 0x11121314);
    assert_eq!(frame.payload, vec![b'b' ^ 0x11, b'l' ^ 0x12, b'u' ^ 0x13, b'b' ^ 0x14]);
    assert_eq!(frame.payload_string(), Ok("blub".to_string()));
}

#[test]
fn text_frame_counts_bytes_not_characters() {
    let frame = new_text_frame("h\u{e9}", None);
    assert_eq!(frame.header.payload_len, 3);
    assert_eq!(frame.payload, vec![b'h', 0xc3, 0xa9]);
    let empty = new_text_frame("", Some(5));
    assert_eq!(empty.header.payload_len, 0);
    assert!(empty.payload.is_empty());
    assert_eq!(empty.payload_string(), Ok(String::new()));
}

#[test]
fn invalid_utf8_has_no_text() {
    let frame = Frame {
        header: Header {
            is_final: true,
            opcode: Opcode::Text,
            is_masked: false,
            payload_len: 2,
            masking_key: 0,
        },
        payload: vec![0xff, 0xfe],
    };
    assert_eq!(frame.payload_string(), Err(TextError::InvalidUtf8));
    // valid as it travels, invalid once the mask is taken off
    let masked = Frame {
        header: Header {
            is_final: true,
            opcode: Opcode::Text,
            is_masked: true,
            payload_len: 1,
            masking_key: 0xff000000,
        },
        payload: vec![0x41],
    };
    assert_eq!(masked.payload_string(), Err(TextError::InvalidUtf8));
}
