//! Decoding a stream of frames that arrives in pieces.

use vstd::prelude::*;

use crate::round_trip::{lemma_decode_encoded, lemma_prefix_is_partial};
use crate::ws_frame::FrameView;
use crate::ws_request::{decode_spec, DecodeError, Decoded};
use crate::ws_response::{frame_bytes, header_bytes};

verus! {

/// What decoding again and again makes of a buffer: the frames taken out, in
/// their order, the bytes left in the buffer, and the error that ended it,
/// where there was one.
pub ghost struct Drained {
    pub frames: Seq<FrameView>,
    pub rest: Seq<u8>,
    pub failed: Option<DecodeError>,
}

/// Decodes from `bytes` until the decoder waits for more or fails.
pub open spec fn drain(bytes: Seq<u8>) -> Drained
    decreases bytes.len(),
{
    match decode_spec(bytes) {
        Decoded::Partial => Drained { frames: Seq::empty(), rest: bytes, failed: None },
        Decoded::Failed(e) => Drained { frames: Seq::empty(), rest: bytes, failed: Some(e) },
        Decoded::Complete { frame, consumed } => {
            if 0 < consumed <= bytes.len() {
                let later = drain(bytes.skip(consumed as int));
                Drained {
                    frames: seq![frame] + later.frames,
                    rest: later.rest,
                    failed: later.failed,
                }
            } else {
                Drained { frames: seq![frame], rest: bytes, failed: None }
            }
        },
    }
}

/// What a host has after it fed `chunk` to a buffer that held `held`.
pub open spec fn feed(held: Seq<u8>, chunk: Seq<u8>) -> Drained {
    drain(held + chunk)
}

/// Draining the wire form of a frame and more gives that frame, then what
/// draining the rest gives.
pub proof fn lemma_drain_encoded(frame: FrameView, rest: Seq<u8>)
    requires
        frame.wf(),
    ensures
        drain(frame_bytes(frame) + rest) == (Drained {
            frames: seq![frame] + drain(rest).frames,
            rest: drain(rest).rest,
            failed: drain(rest).failed,
        }),
{
    lemma_decode_encoded(frame, rest);
    crate::ws_response::lemma_header_bytes_len(frame.header);
}

/// Draining the wire forms of two frames gives those two frames and leaves
/// nothing.
pub proof fn lemma_drain_pair(first: FrameView, second: FrameView)
    requires
        first.wf(),
        second.wf(),
    ensures
        drain(frame_bytes(first) + frame_bytes(second)) == (Drained {
            frames: seq![first, second],
            rest: Seq::empty(),
            failed: None,
        }),
{
    let none = Seq::<u8>::empty();
    assert(decode_spec(none) == Decoded::Partial);
    assert(drain(none) == Drained { frames: Seq::empty(), rest: none, failed: None });
    assert(frame_bytes(second) + none =~= frame_bytes(second));
    lemma_drain_encoded(second, none);
    lemma_drain_encoded(first, frame_bytes(second));
    assert(seq![first] + (seq![second] + Seq::<FrameView>::empty()) =~= seq![first, second]);
}

/// Draining a proper prefix of a frame's wire form that ends before the
/// second byte, or holds the whole header, takes nothing out.
pub proof fn lemma_drain_prefix(frame: FrameView, n: int)
    requires
        frame.wf(),
        0 <= n < frame_bytes(frame).len(),
        n < 2 || n >= header_bytes(frame.header).len(),
    ensures
        drain(frame_bytes(frame).subrange(0, n)) == (Drained {
            frames: Seq::empty(),
            rest: frame_bytes(frame).subrange(0, n),
            failed: None,
        }),
{
    lemma_prefix_is_partial(frame, n);
}

/// Two frames sent one after the other arrive as those two frames, in that
/// order, whether their bytes come at once or cut in two at `cut`, as long
/// as the cut does not fall between the second byte of a header and its end.
pub proof fn lemma_split_stream(first: FrameView, second: FrameView, cut: int)
    requires
        first.wf(),
        second.wf(),
        0 <= cut <= frame_bytes(first).len() + frame_bytes(second).len(),
        !(2 <= cut < header_bytes(first.header).len()),
        !(2 <= cut - frame_bytes(first).len() < header_bytes(second.header).len()),
    ensures
        ({
            let wire = frame_bytes(first) + frame_bytes(second);
            let early = feed(Seq::empty(), wire.subrange(0, cut));
            let late = feed(early.rest, wire.subrange(cut, wire.len() as int));
            &&& drain(wire).frames == seq![first, second]
            &&& drain(wire).rest == Seq::<u8>::empty()
            &&& drain(wire).failed is None
            &&& early.failed is None
            &&& early.frames + late.frames == drain(wire).frames
            &&& late.rest == drain(wire).rest
            &&& late.failed is None
        }),
{
    let e1 = frame_bytes(first);
    let e2 = frame_bytes(second);
    lemma_drain_pair(first, second);
    lemma_split_parts(e1, e2, cut);
    let wire = e1 + e2;
    let none = Seq::<u8>::empty();
    let head = wire.subrange(0, cut);
    let tail = wire.subrange(cut, wire.len() as int);
    let two = seq![first, second];
    if cut < e1.len() {
        lemma_drain_prefix(first, cut);
        assert(Seq::<FrameView>::empty() + two =~= two);
    } else {
        let part = e2.subrange(0, cut - e1.len());
        lemma_drain_encoded(first, part);
        if cut < wire.len() {
            lemma_drain_prefix(second, cut - e1.len());
            lemma_drain_single(second);
            assert((seq![first] + Seq::<FrameView>::empty()) + seq![second] =~= two);
        } else {
            assert(decode_spec(none) == Decoded::Partial);
            assert(drain(none) == Drained { frames: Seq::empty(), rest: none, failed: None });
            assert(two + Seq::<FrameView>::empty() =~= two);
        }
    }
}

/// Draining the wire form of one frame gives that frame and leaves nothing.
pub proof fn lemma_drain_single(frame: FrameView)
    requires
        frame.wf(),
    ensures
        drain(frame_bytes(frame)) == (Drained {
            frames: seq![frame],
            rest: Seq::empty(),
            failed: None,
        }),
{
    let none = Seq::<u8>::empty();
    assert(decode_spec(none) == Decoded::Partial);
    assert(drain(none) == Drained { frames: Seq::empty(), rest: none, failed: None });
    assert(frame_bytes(frame) + none =~= frame_bytes(frame));
    lemma_drain_encoded(frame, none);
    assert(seq![frame] + Seq::<FrameView>::empty() =~= seq![frame]);
}

/// How the two pieces of a cut sequence relate to its two halves.
proof fn lemma_split_parts(e1: Seq<u8>, e2: Seq<u8>, cut: int)
    requires
        0 <= cut <= e1.len() + e2.len(),
    ensures
        ({
            let wire = e1 + e2;
            let none = Seq::<u8>::empty();
            let head = wire.subrange(0, cut);
            let tail = wire.subrange(cut, wire.len() as int);
            &&& none + head == head
            &&& head + tail == wire
            &&& cut < e1.len() ==> head == e1.subrange(0, cut)
            &&& cut >= e1.len() ==> head == e1 + e2.subrange(0, cut - e1.len())
            &&& cut >= e1.len() ==> e2.subrange(0, cut - e1.len()) + tail == e2
            &&& cut == wire.len() ==> e2.subrange(0, cut - e1.len()) == e2 && tail == none && none
                + tail == none
        }),
{
    let wire = e1 + e2;
    let none = Seq::<u8>::empty();
    let head = wire.subrange(0, cut);
    let tail = wire.subrange(cut, wire.len() as int);
    assert(none + head =~= head);
    assert(head + tail =~= wire);
    if cut < e1.len() {
        assert(head =~= e1.subrange(0, cut));
    } else {
        assert(head =~= e1 + e2.subrange(0, cut - e1.len()));
        assert(e2.subrange(0, cut - e1.len()) + tail =~= e2);
        if cut == wire.len() {
            assert(e2.subrange(0, cut - e1.len()) =~= e2);
            assert(tail =~= none);
            assert(none + tail =~= none);
        }
    }
}

} // verus!
