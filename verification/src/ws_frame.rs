//! The frame model: opcodes, headers, frames and the masking transform.

use vstd::prelude::*;
use vstd::slice::slice_to_vec;
use vstd::string::StringSliceAdditionalSpecFns;
use vstd::utf8::{decode_utf8, valid_utf8};

use crate::big_endian::be_bytes;

verus! {

/// The six frame kinds of the wire format.
#[derive(Debug, PartialEq, Eq, Structural, Clone, Copy)]
pub enum Opcode {
    Continuation,
    Text,
    Binary,
    Close,
    Ping,
    Pong,
}

/// The four-bit wire value of an opcode.
pub open spec fn opcode_bits(opcode: Opcode) -> u8 {
    match opcode {
        Opcode::Continuation => 0,
        Opcode::Text => 1,
        Opcode::Binary => 2,
        Opcode::Close => 8,
        Opcode::Ping => 9,
        Opcode::Pong => 10,
    }
}

/// The opcode that a four-bit wire value stands for, if any.
pub open spec fn opcode_of_bits(bits: u8) -> Option<Opcode> {
    if bits == 0 {
        Some(Opcode::Continuation)
    } else if bits == 1 {
        Some(Opcode::Text)
    } else if bits == 2 {
        Some(Opcode::Binary)
    } else if bits == 8 {
        Some(Opcode::Close)
    } else if bits == 9 {
        Some(Opcode::Ping)
    } else if bits == 10 {
        Some(Opcode::Pong)
    } else {
        None
    }
}

pub fn opcode_to_u8(opcode: Opcode) -> (bits: u8)
    ensures
        bits == opcode_bits(opcode),
        bits <= 10,
{
    match opcode {
        Opcode::Continuation => 0,
        Opcode::Text => 1,
        Opcode::Binary => 2,
        Opcode::Close => 8,
        Opcode::Ping => 9,
        Opcode::Pong => 10,
    }
}

pub fn u8_to_opcode(bits: u8) -> (opcode: Option<Opcode>)
    ensures
        opcode == opcode_of_bits(bits),
{
    match bits {
        0 => Some(Opcode::Continuation),
        1 => Some(Opcode::Text),
        2 => Some(Opcode::Binary),
        8 => Some(Opcode::Close),
        9 => Some(Opcode::Ping),
        10 => Some(Opcode::Pong),
        _ => None,
    }
}

/// Every opcode is found again from its wire value, and a wire value that
/// stands for an opcode is that opcode's wire value.
pub proof fn lemma_opcode_bits_inverse(opcode: Opcode, bits: u8)
    ensures
        opcode_of_bits(opcode_bits(opcode)) == Some(opcode),
        opcode_of_bits(bits) == Some(opcode) ==> opcode_bits(opcode) == bits,
{
}

/// The fixed part of a frame that precedes its payload.
#[derive(Debug, PartialEq, Eq, Structural, Clone, Copy)]
pub struct Header {
    pub is_final: bool,
    pub opcode: Opcode,
    pub is_masked: bool,
    pub payload_len: usize,
    pub masking_key: u32,
}

/// A single unit of the wire protocol. The payload is kept as it travels:
/// still masked where the header says so.
#[derive(Debug, Clone)]
pub struct Frame {
    pub header: Header,
    pub payload: Vec<u8>,
}

/// A frame as a mathematical value.
pub ghost struct FrameView {
    pub header: Header,
    pub payload: Seq<u8>,
}

impl View for Frame {
    type V = FrameView;

    open spec fn view(&self) -> FrameView {
        FrameView { header: self.header, payload: self.payload@ }
    }
}

impl FrameView {
    /// The payload is as long as the header says, and a frame that is not
    /// masked carries the key 0.
    pub open spec fn wf(self) -> bool {
        &&& self.payload.len() == self.header.payload_len
        &&& !self.header.is_masked ==> self.header.masking_key == 0
    }

    /// The payload with the mask taken off, where there is one.
    pub open spec fn plain_payload(self) -> Seq<u8> {
        if self.header.is_masked {
            mask_spec(self.header.masking_key, self.payload)
        } else {
            self.payload
        }
    }

    /// What the payload reads as text: the characters that the unmasked
    /// bytes spell in UTF-8, or nothing where they spell none.
    pub open spec fn text(self) -> Option<Seq<char>> {
        if valid_utf8(self.plain_payload()) {
            Some(decode_utf8(self.plain_payload()))
        } else {
            None
        }
    }
}

/// The four bytes of a masking key, in the order in which they travel.
pub open spec fn key_bytes(masking_key: u32) -> Seq<u8> {
    be_bytes(masking_key as nat, 4)
}

/// The masking transform: byte `i` is combined by exclusive or with key byte
/// `i mod 4`.
pub open spec fn mask_spec(masking_key: u32, bytes: Seq<u8>) -> Seq<u8> {
    Seq::new(bytes.len(), |i: int| bytes[i] ^ key_bytes(masking_key)[i % 4])
}

/// The reason why a payload has no textual view.
#[derive(Debug, PartialEq, Eq, Structural, Clone, Copy)]
pub enum TextError {
    InvalidUtf8,
}

/// `std::string::FromUtf8Error`, which `String::from_utf8` hands back for
/// bytes that are no UTF-8. Nothing is read from it.
#[verifier::external_type_specification]
#[verifier::external_body]
pub struct ExFromUtf8Error(std::string::FromUtf8Error);

/// `String::from_utf8`: the bytes become a string exactly when they are valid
/// UTF-8, and the string then holds the characters that they spell.
#[verifier::external_body]
pub(crate) fn string_from_utf8(bytes: Vec<u8>) -> (res: Result<String, std::string::FromUtf8Error>)
    ensures
        res is Ok <==> valid_utf8(bytes@),
        res matches Ok(s) ==> s@ == decode_utf8(bytes@),
{
    String::from_utf8(bytes)
}

/// The four bytes of a masking key, in the order in which they travel.
fn key_octets(masking_key: u32) -> (keys: [u8; 4])
    ensures
        keys@ == key_bytes(masking_key),
{
    let k0: u32 = (masking_key & 0xff000000) >> 24;
    let k1: u32 = (masking_key & 0x00ff0000) >> 16;
    let k2: u32 = (masking_key & 0x0000ff00) >> 8;
    let k3: u32 = masking_key & 0x000000ff;
    assert(k0 == masking_key / 0x1000000 && k0 < 256) by (bit_vector)
        requires
            k0 == (masking_key & 0xff000000) >> 24,
    ;
    assert(k1 == (masking_key / 0x10000) % 256) by (bit_vector)
        requires
            k1 == (masking_key & 0x00ff0000) >> 16,
    ;
    assert(k2 == (masking_key / 0x100) % 256) by (bit_vector)
        requires
            k2 == (masking_key & 0x0000ff00) >> 8,
    ;
    assert(k3 == masking_key % 256) by (bit_vector)
        requires
            k3 == masking_key & 0x000000ff,
    ;
    let keys: [u8; 4] = [k0 as u8, k1 as u8, k2 as u8, k3 as u8];
    proof {
        reveal_with_fuel(be_bytes, 5);
        assert(keys@ =~= key_bytes(masking_key));
    }
    keys
}

/// Applies the masking transform to `bytes`. Applying it twice with one key
/// gives the bytes back.
pub fn mask_bytes(masking_key: u32, bytes: &[u8]) -> (masked: Vec<u8>)
    ensures
        masked@ == mask_spec(masking_key, bytes@),
{
    let keys = key_octets(masking_key);
    let mut masked: Vec<u8> = Vec::new();
    masked.reserve(bytes.len());
    let mut i: usize = 0;
    while i < bytes.len()
        invariant
            i <= bytes.len(),
            keys@ == key_bytes(masking_key),
            masked@ == mask_spec(masking_key, bytes@.subrange(0, i as int)),
        decreases bytes.len() - i,
    {
        masked.push(bytes[i] ^ keys[i % 4]);
        i += 1;
        assert(masked@ =~= mask_spec(masking_key, bytes@.subrange(0, i as int)));
    }
    assert(bytes@.subrange(0, i as int) =~= bytes@);
    masked
}

impl Frame {
    /// The payload as text: unmasked first where the frame is masked, then
    /// read as UTF-8.
    pub fn payload_string(&self) -> (res: Result<String, TextError>)
        ensures
            (match self@.text() {
                Some(text) => res matches Ok(s) && s@ == text,
                None => res == Err::<String, TextError>(TextError::InvalidUtf8),
            }),
    {
        let plain = if !self.header.is_masked {
            slice_to_vec(self.payload.as_slice())
        } else {
            mask_bytes(self.header.masking_key, self.payload.as_slice())
        };
        match string_from_utf8(plain) {
            Ok(s) => Ok(s),
            Err(_) => Err(TextError::InvalidUtf8),
        }
    }
}

/// A final text frame that carries `text`, masked with the key where one is
/// given.
pub fn new_text_frame(text: &str, masking_key: Option<u32>) -> (frame: Frame)
    ensures
        frame@.wf(),
        frame.header.is_final,
        frame.header.opcode == Opcode::Text,
        frame.header.is_masked == masking_key.is_some(),
        frame.header.payload_len == text.spec_bytes().len(),
        frame.header.masking_key == (match masking_key {
            Some(key) => key,
            None => 0,
        }),
        frame@.plain_payload() == text.spec_bytes(),
        frame.payload@ == (match masking_key {
            Some(key) => mask_spec(key, text.spec_bytes()),
            None => text.spec_bytes(),
        }),
{
    let plain = text.as_bytes();
    let masked_text = match masking_key {
        Some(key) => mask_bytes(key, plain),
        None => slice_to_vec(plain),
    };
    proof {
        if let Some(key) = masking_key {
            lemma_mask_twice(key, text.spec_bytes());
        }
    }
    Frame {
        header: Header {
            is_final: true,
            opcode: Opcode::Text,
            is_masked: masking_key.is_some(),
            payload_len: plain.len(),
            masking_key: match masking_key {
                Some(key) => key,
                None => 0,
            },
        },
        payload: masked_text,
    }
}

/// Masking keeps the length, and masking twice with one key gives the bytes
/// back.
pub proof fn lemma_mask_twice(masking_key: u32, bytes: Seq<u8>)
    ensures
        mask_spec(masking_key, bytes).len() == bytes.len(),
        mask_spec(masking_key, mask_spec(masking_key, bytes)) == bytes,
{
    let once = mask_spec(masking_key, bytes);
    let twice = mask_spec(masking_key, once);
    assert forall|i: int| 0 <= i < bytes.len() implies twice[i] == bytes[i] by {
        let b = bytes[i];
        let k = key_bytes(masking_key)[i % 4];
        assert((b ^ k) ^ k == b) by (bit_vector);
    }
    assert(twice =~= bytes);
}

} // verus!
