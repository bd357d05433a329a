//! The frame codec.
//!
//! On the wire a frame is its length as a variable-length integer, followed by
//! that many bytes. [`FzRpcCodec::encode`] writes one frame in this form.
//! [`FzRpcCodec::decode`] takes bytes as they arrive, in pieces of any size,
//! and hands out one frame per call as soon as a whole one is there; what it
//! cannot use yet it keeps for the next call. Nothing in a stream is ever
//! rejected: a stream that does not hold a whole frame is one that is not
//! finished.

use crate::buffer::{advance, as_slice, contents, put_slice};
use crate::varint::{
    decode_var, decoded, encode_var, lemma_decoded_extends, lemma_decoded_of_cut_varint,
    lemma_decoded_of_varint, lemma_decoded_value, varint, MAX_VARINT_LEN,
};
use bytes::BytesMut;
use vstd::prelude::*;
use vstd::slice::slice_subrange;

verus! {

/// A frame as it goes over the wire: the length of `payload`, then `payload`.
pub open spec fn wire_message(payload: Seq<u8>) -> Seq<u8> {
    varint(payload.len()) + payload
}

/// The frame at the start of `stream` and the number of bytes that it takes
/// there, header included. `None` while the stream does not hold a whole
/// length and as many bytes as the length says.
pub open spec fn first_frame(stream: Seq<u8>) -> Option<(Seq<u8>, nat)> {
    match decoded(stream) {
        Some((len, header)) => {
            if header + len <= stream.len() {
                Some((stream.subrange(header as int, header + len), (header + len) as nat))
            } else {
                None
            }
        },
        None => None,
    }
}

/// What one call of [`FzRpcCodec::decode`] does when the codec has kept
/// `carry` and `incoming` arrives: the frame it returns, if any, and what it
/// keeps.
pub open spec fn decode_call(carry: Seq<u8>, incoming: Seq<u8>) -> (Option<Seq<u8>>, Seq<u8>) {
    let stream = carry + incoming;
    match first_frame(stream) {
        Some((payload, taken)) => (Some(payload), stream.skip(taken as int)),
        None => (None, stream),
    }
}

/// The view of a frame that may not be there.
pub open spec fn frame_view(frame: Option<Vec<u8>>) -> Option<Seq<u8>> {
    match frame {
        Some(bytes) => Some(bytes@),
        None => None,
    }
}

/// The codec of one direction of a stream. Its view is what it has received
/// and not yet handed out.
pub struct FzRpcCodec {
    buf: Vec<u8>,
}

impl View for FzRpcCodec {
    type V = Seq<u8>;

    closed spec fn view(&self) -> Seq<u8> {
        self.buf@
    }
}

impl Default for FzRpcCodec {
    fn default() -> (codec: Self)
        ensures
            codec@ == Seq::<u8>::empty(),
    {
        FzRpcCodec { buf: Vec::new() }
    }
}

impl FzRpcCodec {
    /// A codec that has received nothing.
    pub fn new() -> (codec: Self)
        ensures
            codec@ == Seq::<u8>::empty(),
    {
        FzRpcCodec { buf: Vec::new() }
    }

    /// The bytes received and not yet handed out.
    pub fn pending(&self) -> (bytes: &[u8])
        ensures
            bytes@ == self@,
    {
        self.buf.as_slice()
    }

    /// Takes everything out of `buf` and returns the first frame that the
    /// bytes received so far hold, if they hold a whole one. The bytes behind
    /// that frame stay in the codec, as do all bytes when no frame is
    /// returned.
    pub fn decode(&mut self, buf: &mut BytesMut) -> (frame: Option<Vec<u8>>)
        ensures
            contents(*final(buf)) == Seq::<u8>::empty(),
            (frame_view(frame), final(self)@) == decode_call(old(self)@, contents(*old(buf))),
    {
        let incoming = as_slice(buf);
        let count: usize = incoming.len();
        self.buf.extend_from_slice(incoming);
        advance(buf, count);
        assert(self.buf@ =~= old(self)@ + contents(*old(buf)));
        let ghost stream = self.buf@;
        match decode_var(self.buf.as_slice()) {
            Some((frame_len, header_len)) => {
                proof {
                    lemma_decoded_value(stream);
                }
                let body_len: usize = self.buf.len() - header_len;
                if frame_len <= body_len as u64 {
                    let mut frame = self.buf.split_off(header_len);
                    let rest = frame.split_off(frame_len as usize);
                    self.buf = rest;
                    Some(frame)
                } else {
                    None
                }
            },
            None => None,
        }
    }

    /// Appends the wire form of the frame `data` to `buf`. The codec itself
    /// is left as it was.
    pub fn encode(&mut self, data: &[u8], buf: &mut BytesMut)
        ensures
            contents(*final(buf)) == contents(*old(buf)) + wire_message(data@),
            final(self)@ == old(self)@,
    {
        let mut header = [0u8; MAX_VARINT_LEN];
        let header_len = encode_var(data.len() as u64, &mut header);
        proof {
            lemma_decoded_of_varint(data@.len(), Seq::empty());
        }
        put_slice(buf, slice_subrange(header.as_slice(), 0, header_len));
        put_slice(buf, data);
    }
}

/// The frames that stand whole in `stream`, one behind the other.
pub open spec fn frames_in(stream: Seq<u8>) -> Seq<Seq<u8>>
    decreases stream.len(),
{
    match first_frame(stream) {
        Some((payload, taken)) => {
            proof {
                lemma_decoded_value(stream);
            }
            seq![payload] + frames_in(stream.skip(taken as int))
        },
        None => Seq::empty(),
    }
}

/// The wire forms of `payloads`, one behind the other.
pub open spec fn wire_stream(payloads: Seq<Seq<u8>>) -> Seq<u8>
    decreases payloads.len(),
{
    if payloads.len() == 0 {
        Seq::empty()
    } else {
        wire_message(payloads.first()) + wire_stream(payloads.drop_first())
    }
}

/// The frames that [`FzRpcCodec::decode`] returns when the codec has kept
/// `carry` and is called once with each of `chunks`, in order.
pub open spec fn frames_yielded(carry: Seq<u8>, chunks: Seq<Seq<u8>>) -> Seq<Seq<u8>>
    decreases chunks.len(),
{
    if chunks.len() == 0 {
        Seq::empty()
    } else {
        let (frame, kept) = decode_call(carry, chunks.first());
        let later = frames_yielded(kept, chunks.drop_first());
        match frame {
            Some(payload) => seq![payload] + later,
            None => later,
        }
    }
}

/// What the codec keeps after those calls.
pub open spec fn carry_after(carry: Seq<u8>, chunks: Seq<Seq<u8>>) -> Seq<u8>
    decreases chunks.len(),
{
    if chunks.len() == 0 {
        carry
    } else {
        carry_after(decode_call(carry, chunks.first()).1, chunks.drop_first())
    }
}

/// A frame that stands whole in `a` is the first frame of `a` followed by
/// anything.
pub proof fn lemma_first_frame_extends(a: Seq<u8>, b: Seq<u8>)
    requires
        first_frame(a) is Some,
    ensures
        first_frame(a + b) == first_frame(a),
{
    lemma_decoded_extends(a, b);
    lemma_decoded_value(a);
}

/// The first frame of a wire message, whatever follows it, is its payload.
pub proof fn lemma_first_frame_of_message(payload: Seq<u8>, rest: Seq<u8>)
    requires
        payload.len() <= u64::MAX,
    ensures
        first_frame(wire_message(payload) + rest) == Some(
            (payload, wire_message(payload).len()),
        ),
        (wire_message(payload) + rest).skip(wire_message(payload).len() as int) == rest,
{
    let header = varint(payload.len());
    let stream = wire_message(payload) + rest;
    assert(stream =~= header + (payload + rest));
    lemma_decoded_of_varint(payload.len(), payload + rest);
}

/// A wire message that has not arrived in full holds no frame.
pub proof fn lemma_no_frame_in_cut_message(payload: Seq<u8>, cut: int)
    requires
        payload.len() <= u64::MAX,
        0 <= cut < wire_message(payload).len(),
    ensures
        first_frame(wire_message(payload).take(cut)) is None,
{
    let header = varint(payload.len());
    let part = wire_message(payload).take(cut);
    if cut < header.len() {
        assert(part =~= header.take(cut));
        lemma_decoded_of_cut_varint(payload.len(), cut);
    } else {
        assert(part =~= header + payload.take(cut - header.len()));
        lemma_decoded_of_varint(payload.len(), payload.take(cut - header.len()));
    }
}

/// Partial-frame stability. A wire message cut anywhere short of its end
/// yields no frame, and all of it is kept; when the remaining bytes arrive,
/// the payload is returned and nothing is kept.
pub proof fn law_partial_frame(payload: Seq<u8>, cut: int)
    requires
        payload.len() <= u64::MAX,
        0 <= cut < wire_message(payload).len(),
    ensures
        decode_call(Seq::empty(), wire_message(payload).take(cut)) == (
            None::<Seq<u8>>,
            wire_message(payload).take(cut),
        ),
        decode_call(wire_message(payload).take(cut), wire_message(payload).skip(cut)) == (
            Some(payload),
            Seq::<u8>::empty(),
        ),
{
    let message = wire_message(payload);
    lemma_no_frame_in_cut_message(payload, cut);
    assert(message.take(cut) + message.skip(cut) =~= message);
    lemma_first_frame_of_message(payload, Seq::empty());
}

/// Calls that bring nothing to a codec that keeps nothing yield nothing.
pub proof fn lemma_idle_calls(chunks: Seq<Seq<u8>>)
    requires
        chunks.flatten() == Seq::<u8>::empty(),
    ensures
        frames_yielded(Seq::empty(), chunks) == Seq::<Seq<u8>>::empty(),
        carry_after(Seq::empty(), chunks) == Seq::<u8>::empty(),
    decreases chunks.len(),
{
    if chunks.len() > 0 {
        assert(first_frame(Seq::<u8>::empty()) is None);
        lemma_idle_calls(chunks.drop_first());
    }
}

/// The round trip of one frame, from the point where the first `have` bytes
/// of its wire message have arrived and the rest comes in `chunks`.
pub proof fn lemma_round_trip_from(payload: Seq<u8>, have: int, chunks: Seq<Seq<u8>>)
    requires
        payload.len() <= u64::MAX,
        0 <= have < wire_message(payload).len(),
        chunks.flatten() == wire_message(payload).skip(have),
    ensures
        frames_yielded(wire_message(payload).take(have), chunks) == seq![payload],
        carry_after(wire_message(payload).take(have), chunks) == Seq::<u8>::empty(),
    decreases chunks.len(),
{
    let message = wire_message(payload);
    let carry = message.take(have);
    if chunks.len() > 0 {
        let chunk = chunks.first();
        let later = chunks.drop_first();
        let now = have + chunk.len();
        let tail = message.skip(have);
        assert(chunk =~= tail.take(chunk.len() as int));
        assert(later.flatten() =~= tail.skip(chunk.len() as int));
        assert(carry + chunk =~= message.take(now));
        assert(later.flatten() =~= message.skip(now));
        if now < message.len() {
            lemma_no_frame_in_cut_message(payload, now);
            lemma_round_trip_from(payload, now, later);
        } else {
            assert(message.take(now) =~= message + Seq::<u8>::empty());
            lemma_first_frame_of_message(payload, Seq::empty());
            lemma_idle_calls(later);
        }
    }
}

/// Round trip. However the wire form of a payload is cut into chunks, the
/// calls that take the chunks in return the payload once, and nothing else,
/// and leave nothing behind.
pub proof fn law_round_trip(payload: Seq<u8>, chunks: Seq<Seq<u8>>)
    requires
        payload.len() <= u64::MAX,
        chunks.flatten() == wire_message(payload),
    ensures
        frames_yielded(Seq::empty(), chunks) == seq![payload],
        carry_after(Seq::empty(), chunks) == Seq::<u8>::empty(),
{
    let message = wire_message(payload);
    assert(message.skip(0) =~= message);
    lemma_round_trip_from(payload, 0, chunks);
}

/// The frames of a stream that begins with a whole frame: that frame, then
/// the frames of what follows it.
pub proof fn lemma_frames_behind_first(a: Seq<u8>, b: Seq<u8>)
    requires
        first_frame(a) is Some,
    ensures
        ({
            let (payload, taken) = first_frame(a)->0;
            frames_in(a + b) == seq![payload] + frames_in(a.skip(taken as int) + b)
        }),
{
    lemma_first_frame_extends(a, b);
    lemma_decoded_value(a);
    let (payload, taken) = first_frame(a)->0;
    assert((a + b).skip(taken as int) =~= a.skip(taken as int) + b);
}

/// However a stream is cut into chunks, the frames returned as the chunks
/// are taken in, followed by the frames still kept, are the frames of the
/// stream, in their order.
pub proof fn law_calls_follow_stream(carry: Seq<u8>, chunks: Seq<Seq<u8>>)
    ensures
        frames_yielded(carry, chunks) + frames_in(carry_after(carry, chunks)) == frames_in(
            carry + chunks.flatten(),
        ),
    decreases chunks.len(),
{
    if chunks.len() > 0 {
        let chunk = chunks.first();
        let later = chunks.drop_first();
        let stream = carry + chunk;
        assert(carry + chunks.flatten() =~= stream + later.flatten());
        let (frame, kept) = decode_call(carry, chunk);
        law_calls_follow_stream(kept, later);
        if frame is Some {
            lemma_frames_behind_first(stream, later.flatten());
        }
    }
}

/// The frames of a stream of wire messages are the payloads.
pub proof fn law_frames_of_stream(payloads: Seq<Seq<u8>>)
    requires
        forall|i: int| 0 <= i < payloads.len() ==> (#[trigger] payloads[i]).len() <= u64::MAX,
    ensures
        frames_in(wire_stream(payloads)) == payloads,
    decreases payloads.len(),
{
    if payloads.len() > 0 {
        lemma_first_frame_of_message(payloads.first(), wire_stream(payloads.drop_first()));
        law_frames_of_stream(payloads.drop_first());
    }
}

/// Multi-frame stream. When the wire forms of `payloads`, one behind the
/// other, arrive cut into chunks in any way, each call returns the next
/// payload that has arrived in full and was not returned yet: the frames
/// returned, followed by those still kept, are the payloads in order. Once
/// the codec keeps no whole frame, every payload has been returned.
pub proof fn law_multi_frame(payloads: Seq<Seq<u8>>, chunks: Seq<Seq<u8>>)
    requires
        forall|i: int| 0 <= i < payloads.len() ==> (#[trigger] payloads[i]).len() <= u64::MAX,
        chunks.flatten() == wire_stream(payloads),
    ensures
        frames_yielded(Seq::empty(), chunks) + frames_in(carry_after(Seq::empty(), chunks))
            == payloads,
        first_frame(carry_after(Seq::empty(), chunks)) is None ==> frames_yielded(
            Seq::empty(),
            chunks,
        ) == payloads,
{
    law_calls_follow_stream(Seq::empty(), chunks);
    law_frames_of_stream(payloads);
}

/// A call that brings nothing returns the first of the frames that the codec
/// keeps, and keeps the others.
pub proof fn law_call_without_input(carry: Seq<u8>)
    ensures
        frames_in(carry).len() == 0 ==> decode_call(carry, Seq::empty()) == (
            None::<Seq<u8>>,
            carry,
        ),
        frames_in(carry).len() > 0 ==> {
            &&& decode_call(carry, Seq::empty()).0 == Some(frames_in(carry).first())
            &&& frames_in(decode_call(carry, Seq::empty()).1) == frames_in(carry).drop_first()
        },
{
    assert(carry + Seq::<u8>::empty() =~= carry);
}

} // verus!
